//! Names of produced artifacts: sanitising an application name into a
//! native package name, and deriving a launcher file name that collides
//! with nothing that already exists.

use vstd::prelude::*;
use crate::resolver::spec_contains_name;

verus! {

/// Whether a character may appear in a native package name.
pub open spec fn spec_name_char_kept(c: char) -> bool {
    ('a' <= c && c <= 'z') || ('A' <= c && c <= 'Z') || ('0' <= c && c <= '9') || c == '_' || c
        == '-'
}

/// Whether a character is stripped from the front of a package name.
pub open spec fn spec_leading_stripped(c: char) -> bool {
    ('0' <= c && c <= '9') || c == '-'
}

/// The sanitised form: every character outside letters, digits, `_` and
/// `-` becomes `-`, then leading digits and `-` are removed.
pub open spec fn spec_sanitized(s: Seq<char>) -> Seq<char> {
    spec_drop_leading(s.map_values(|c: char| if spec_name_char_kept(c) { c } else { '-' }))
}

/// Drop every leading character that a package name may not start with.
pub open spec fn spec_drop_leading(s: Seq<char>) -> Seq<char>
    decreases s.len(),
{
    if s.len() > 0 && spec_leading_stripped(s[0]) {
        spec_drop_leading(s.subrange(1, s.len() as int))
    } else {
        s
    }
}

fn name_char_kept(c: char) -> (r: bool)
    ensures
        r == spec_name_char_kept(c),
{
    ('a' <= c && c <= 'z') || ('A' <= c && c <= 'Z') || ('0' <= c && c <= '9') || c == '_' || c
        == '-'
}

fn leading_stripped(c: char) -> (r: bool)
    ensures
        r == spec_leading_stripped(c),
{
    ('0' <= c && c <= '9') || c == '-'
}

/// Turn an application name into a native package name: letters, digits,
/// `_` and `-` stay, everything else becomes `-`, and leading digits and
/// hyphens are stripped.
pub fn sanitize_package_name(name: &str) -> (r: String)
    ensures
        r@ == spec_sanitized(name@),
{
    let len = name.unicode_len();
    let mut mapped = String::new();
    let mut i: usize = 0;
    proof {
        assert(mapped@ =~= name@.subrange(0, 0).map_values(
            |c: char| if spec_name_char_kept(c) { c } else { '-' },
        ));
    }
    while i < len
        invariant
            i <= len,
            len == name@.len(),
            mapped@ == name@.subrange(0, i as int).map_values(
                |c: char| if spec_name_char_kept(c) { c } else { '-' },
            ),
            mapped@.len() == i,
        decreases len - i,
    {
        let c = name.get_char(i);
        if name_char_kept(c) {
            let piece = name.substring_char(i, i + 1);
            proof {
                assert(piece@ =~= seq![c]);
            }
            mapped.append(piece);
        } else {
            mapped.append("-");
            proof {
                reveal_strlit("-");
            }
        }
        proof {
            assert(name@.subrange(0, i as int + 1) =~= name@.subrange(0, i as int).push(
                name@[i as int],
            ));
            assert(mapped@ =~= name@.subrange(0, i as int + 1).map_values(
                |c: char| if spec_name_char_kept(c) { c } else { '-' },
            ));
        }
        i = i + 1;
    }
    proof {
        assert(name@.subrange(0, len as int) =~= name@);
    }
    let ghost mview = mapped@;
    let mlen = mapped.as_str().unicode_len();
    let mut lo: usize = 0;
    proof {
        assert(mview.subrange(0, mview.len() as int) =~= mview);
    }
    while lo < mlen && leading_stripped(mapped.as_str().get_char(lo))
        invariant
            lo <= mlen,
            mlen == mview.len(),
            mview == mapped@,
            spec_drop_leading(mview) == spec_drop_leading(
                mview.subrange(lo as int, mlen as int),
            ),
        decreases mlen - lo,
    {
        proof {
            assert(mview.subrange(lo as int, mlen as int).subrange(
                1,
                mview.subrange(lo as int, mlen as int).len() as int,
            ) =~= mview.subrange(lo as int + 1, mlen as int));
        }
        lo = lo + 1;
    }
    mapped.as_str().substring_char(lo, mlen).to_owned()
}

/// The decimal digit character of a value below ten.
pub open spec fn spec_digit_char(d: nat) -> char {
    if d == 0 {
        '0'
    } else if d == 1 {
        '1'
    } else if d == 2 {
        '2'
    } else if d == 3 {
        '3'
    } else if d == 4 {
        '4'
    } else if d == 5 {
        '5'
    } else if d == 6 {
        '6'
    } else if d == 7 {
        '7'
    } else if d == 8 {
        '8'
    } else {
        '9'
    }
}

/// The decimal rendering of a number, most significant digit first.
pub open spec fn spec_decimal(n: nat) -> Seq<char>
    decreases n,
{
    if n < 10 {
        seq![spec_digit_char(n)]
    } else {
        spec_decimal(n / 10).push(spec_digit_char(n % 10))
    }
}

/// Render a number in decimal.
pub fn u64_to_decimal(n: u64) -> (r: String)
    ensures
        r@ == spec_decimal(n as nat),
    decreases n,
{
    let d = n % 10;
    let digit: &str = if d == 0 {
        "0"
    } else if d == 1 {
        "1"
    } else if d == 2 {
        "2"
    } else if d == 3 {
        "3"
    } else if d == 4 {
        "4"
    } else if d == 5 {
        "5"
    } else if d == 6 {
        "6"
    } else if d == 7 {
        "7"
    } else if d == 8 {
        "8"
    } else {
        "9"
    };
    proof {
        reveal_strlit("0");
        reveal_strlit("1");
        reveal_strlit("2");
        reveal_strlit("3");
        reveal_strlit("4");
        reveal_strlit("5");
        reveal_strlit("6");
        reveal_strlit("7");
        reveal_strlit("8");
        reveal_strlit("9");
        assert(digit@ =~= seq![spec_digit_char((n % 10) as nat)]);
    }
    if n < 10 {
        digit.to_owned()
    } else {
        let mut r = u64_to_decimal(n / 10);
        r.append(digit);
        proof {
            assert(r@ =~= spec_decimal((n / 10) as nat).push(spec_digit_char((n % 10) as nat)));
        }
        r
    }
}

/// A decimal rendering is never empty, and a value of ten or more has at
/// least two digits.
proof fn lemma_decimal_len(n: nat)
    ensures
        spec_decimal(n).len() >= 1,
        n >= 10 ==> spec_decimal(n).len() >= 2,
    decreases n,
{
    if n >= 10 {
        lemma_decimal_len(n / 10);
    }
}

/// Different values render differently.
proof fn lemma_decimal_injective(a: nat, b: nat)
    requires
        spec_decimal(a) == spec_decimal(b),
    ensures
        a == b,
    decreases a + b,
{
    lemma_decimal_len(a);
    lemma_decimal_len(b);
    if a < 10 && b < 10 {
        assert(spec_decimal(a)[0] == spec_digit_char(a));
        assert(spec_decimal(b)[0] == spec_digit_char(b));
    } else if a < 10 {
        assert(spec_decimal(a).len() == 1);
    } else if b < 10 {
        assert(spec_decimal(b).len() == 1);
    } else {
        assert(spec_decimal(a).last() == spec_digit_char(a % 10));
        assert(spec_decimal(b).last() == spec_digit_char(b % 10));
        assert(a % 10 == b % 10);
        assert(spec_decimal(a).drop_last() =~= spec_decimal(a / 10));
        assert(spec_decimal(b).drop_last() =~= spec_decimal(b / 10));
        lemma_decimal_injective(a / 10, b / 10);
        assert(a == 10 * (a / 10) + a % 10);
        assert(b == 10 * (b / 10) + b % 10);
    }
}

/// The launcher name tried at attempt `k`: the base name itself, then
/// with `-bundle`, then with `-bundle-N` for N = 1, 2, ...; the host
/// extension always follows.
pub open spec fn spec_candidate(base: Seq<char>, ext: Seq<char>, k: nat) -> Seq<char> {
    if k == 0 {
        base + ext
    } else if k == 1 {
        base + "-bundle"@ + ext
    } else {
        base + "-bundle-"@ + spec_decimal((k - 1) as nat) + ext
    }
}

/// Different attempts propose different names.
proof fn lemma_candidate_injective(base: Seq<char>, ext: Seq<char>, j: nat, k: nat)
    requires
        j != k,
    ensures
        spec_candidate(base, ext, j) != spec_candidate(base, ext, k),
{
    reveal_strlit("-bundle");
    reveal_strlit("-bundle-");
    assert("-bundle"@.len() == 7);
    assert("-bundle-"@.len() == 8);
    let cj = spec_candidate(base, ext, j);
    let ck = spec_candidate(base, ext, k);
    if j >= 2 {
        lemma_decimal_len((j - 1) as nat);
        assert(cj.len() == base.len() + 8 + spec_decimal((j - 1) as nat).len() + ext.len());
    } else if j == 1 {
        assert(cj.len() == base.len() + 7 + ext.len());
    } else {
        assert(cj.len() == base.len() + ext.len());
    }
    if k >= 2 {
        lemma_decimal_len((k - 1) as nat);
        assert(ck.len() == base.len() + 8 + spec_decimal((k - 1) as nat).len() + ext.len());
    } else if k == 1 {
        assert(ck.len() == base.len() + 7 + ext.len());
    } else {
        assert(ck.len() == base.len() + ext.len());
    }
    if j >= 2 && k >= 2 {
        if cj == ck {
            let dj = spec_decimal((j - 1) as nat);
            let dk = spec_decimal((k - 1) as nat);
            assert(dj.len() == dk.len());
            assert(dj =~= cj.subrange(
                base.len() as int + 8,
                base.len() as int + 8 + dj.len() as int,
            ));
            assert(dk =~= ck.subrange(
                base.len() as int + 8,
                base.len() as int + 8 + dk.len() as int,
            ));
            lemma_decimal_injective((j - 1) as nat, (k - 1) as nat);
        }
    } else {
        assert(cj.len() != ck.len());
    }
}

/// Whether a proposed name is already taken.
fn name_taken(existing: &Vec<String>, name: &str) -> (r: bool)
    ensures
        r == spec_contains_name(existing@, name@),
{
    let mut i: usize = 0;
    while i < existing.len()
        invariant
            i <= existing@.len(),
            forall|j: int| 0 <= j < i ==> existing@[j]@ != name@,
        decreases existing@.len() - i,
    {
        if crate::strutil::str_eq(existing[i].as_str(), name) {
            return true;
        }
        i = i + 1;
    }
    false
}

/// Build the candidate name for attempt `k`.
fn candidate_name(base: &str, ext: &str, k: u64) -> (r: String)
    ensures
        r@ == spec_candidate(base@, ext@, k as nat),
{
    let mut r = base.to_owned();
    if k == 0 {
        r.append(ext);
    } else if k == 1 {
        r.append("-bundle");
        r.append(ext);
    } else {
        r.append("-bundle-");
        let num = u64_to_decimal(k - 1);
        r.append(num.as_str());
        r.append(ext);
    }
    r
}

/// The base name the launcher file is derived from: the custom name
/// when one was given, else the application name.
pub open spec fn spec_base_of(app_name: Seq<char>, custom: Option<&str>) -> Seq<char> {
    match custom {
        Some(c) => c@,
        None => app_name,
    }
}

/// The host-appropriate executable extension.
pub open spec fn spec_ext_of(windows: bool) -> Seq<char> {
    if windows {
        ".exe"@
    } else {
        ""@
    }
}

/// Derive the launcher's output name.  An explicit output path wins
/// unchanged.  Otherwise the base name is the custom name, or the
/// application name; the host extension is appended; and on a collision
/// with an existing name, `-bundle`, then `-bundle-N` for increasing `N`,
/// is inserted until the name is free: the result is the first attempt
/// that collides with nothing.
pub fn resolve_output_path(
    output_path: Option<String>,
    app_name: &str,
    custom_name: Option<&str>,
    windows: bool,
    existing: &Vec<String>,
) -> (r: String)
    ensures
        output_path matches Some(p) ==> r == p,
        output_path is None ==> !spec_contains_name(existing@, r@),
        output_path is None ==> exists|k: nat|
            r@ == #[trigger] spec_candidate(
                spec_base_of(app_name@, custom_name),
                spec_ext_of(windows),
                k,
            ) && (forall|j: nat|
                j < k ==> spec_contains_name(
                    existing@,
                    #[trigger] spec_candidate(
                        spec_base_of(app_name@, custom_name),
                        spec_ext_of(windows),
                        j,
                    ),
                )),
{
    if let Some(p) = output_path {
        return p;
    }
    let base: &str = match custom_name {
        Some(c) => c,
        None => app_name,
    };
    let ext: &str = if windows {
        ".exe"
    } else {
        ""
    };
    let n = existing.len();
    let mut k: usize = 0;
    loop
        invariant
            n == existing@.len(),
            k <= n,
            forall|j: nat|
                j < k ==> spec_contains_name(existing@, #[trigger] spec_candidate(base@, ext@, j)),
        ensures
            !spec_contains_name(existing@, spec_candidate(base@, ext@, k as nat)),
            forall|j: nat|
                j < k ==> spec_contains_name(existing@, #[trigger] spec_candidate(base@, ext@, j)),
        decreases n - k,
    {
        let cand = candidate_name(base, ext, k as u64);
        if !name_taken(existing, cand.as_str()) {
            break;
        }
        proof {
            lemma_candidates_bounded(base@, ext@, existing@, k as nat + 1);
            assert(k < n);
        }
        k = k + 1;
    }
    let r = candidate_name(base, ext, k as u64);
    proof {
        let spec_base = spec_base_of(app_name@, custom_name);
        let spec_ext = spec_ext_of(windows);
        assert(base@ == spec_base);
        assert(ext@ == spec_ext);
        assert(r@ == spec_candidate(spec_base, spec_ext, k as nat));
        assert(forall|j: nat|
            j < k as nat ==> spec_contains_name(
                existing@,
                #[trigger] spec_candidate(spec_base, spec_ext, j),
            ));
        assert(exists|kk: nat|
            r@ == #[trigger] spec_candidate(spec_base, spec_ext, kk) && (forall|j: nat|
            j < kk ==> spec_contains_name(
                existing@,
                #[trigger] spec_candidate(spec_base, spec_ext, j),
            ))) by {
            assert(r@ == spec_candidate(spec_base, spec_ext, k as nat) && (forall|j: nat|
                j < k as nat ==> spec_contains_name(
                    existing@,
                    #[trigger] spec_candidate(spec_base, spec_ext, j),
                )));
        }
    }
    r
}

/// If the first `m` candidate names are all taken, there are at least
/// `m` existing names: the candidates are pairwise distinct, so they
/// cannot all fit among fewer existing names.
proof fn lemma_candidates_bounded(base: Seq<char>, ext: Seq<char>, existing: Seq<String>, m: nat)
    requires
        forall|j: nat|
            j < m ==> spec_contains_name(existing, #[trigger] spec_candidate(base, ext, j)),
    ensures
        m <= existing.len(),
{
    broadcast use vstd::seq_lib::group_seq_properties;

    let cands = Seq::<Seq<char>>::new(m, |i: int| spec_candidate(base, ext, i as nat));
    let names = existing.map_values(|s: String| s@);
    assert(cands.no_duplicates()) by {
        assert forall|i: int, j: int|
            0 <= i < cands.len() && 0 <= j < cands.len() && i != j implies cands[i]
            != cands[j] by {
            lemma_candidate_injective(base, ext, i as nat, j as nat);
        }
    }
    cands.unique_seq_to_set();
    names.lemma_cardinality_of_set();
    assert(cands.to_set().subset_of(names.to_set())) by {
        assert forall|x: Seq<char>| cands.to_set().contains(x) implies names.to_set().contains(
            x,
        ) by {
            let i = choose|i: int| 0 <= i < cands.len() && cands[i] == x;
            assert(spec_contains_name(existing, x));
            let w = choose|w: int| 0 <= w < existing.len() && existing[w]@ == x;
            assert(names[w] == x);
        }
    }
    vstd::set_lib::lemma_len_subset(cands.to_set(), names.to_set());
}

} // verus!
