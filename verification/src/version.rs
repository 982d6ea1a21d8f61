//! Version comparison following the pacman version-ordering scheme:
//! an optional numeric epoch before `:`, then the upstream version, then an
//! optional release field after the last `-`. Each field is compared by
//! splitting it into maximal alphabetic or numeric runs: separator runs of
//! equal length are skipped, numeric runs beat alphabetic runs, numeric runs
//! are compared as numbers, alphabetic runs lexicographically, and a trailing
//! alphabetic remainder loses against an exhausted counterpart.

use vstd::prelude::*;

use crate::error::Error;

verus! {

use crate::strutil::{chars_of, chars_eq, contains_nul, copy_range};

/// Three-way outcome of a version comparison.
#[derive(Clone, Copy, Debug, PartialEq, Eq, Structural)]
pub enum Vercmp {
    /// The first version is older than the second.
    Older,
    /// The two versions are equal.
    Equal,
    /// The first version is newer than the second.
    Newer,
}

/// The sign of a native-style comparison code, as a `Vercmp` value.
pub open spec fn vercmp_of_int(v: int) -> Vercmp {
    if v < 0 {
        Vercmp::Older
    } else if v > 0 {
        Vercmp::Newer
    } else {
        Vercmp::Equal
    }
}

impl From<i32> for Vercmp {
    /// Maps a negative code to `Older`, a positive one to `Newer`, zero to
    /// `Equal`.
    fn from(v: i32) -> (r: Vercmp) {
        if v < 0 {
            Vercmp::Older
        } else if v > 0 {
            Vercmp::Newer
        } else {
            Vercmp::Equal
        }
    }
}

impl vstd::std_specs::convert::FromSpecImpl<i32> for Vercmp {
    open spec fn obeys_from_spec() -> bool {
        true
    }

    open spec fn from_spec(v: i32) -> Vercmp {
        vercmp_of_int(v as int)
    }
}

/// An ASCII decimal digit.
pub open spec fn spec_is_digit(c: char) -> bool {
    48 <= (c as u32) && (c as u32) <= 57
}

/// An ASCII letter.
pub open spec fn spec_is_alpha(c: char) -> bool {
    (65 <= (c as u32) && (c as u32) <= 90) || (97 <= (c as u32) && (c as u32) <= 122)
}

/// An ASCII letter or digit. Every other character acts as a separator.
pub open spec fn spec_is_alnum(c: char) -> bool {
    spec_is_digit(c) || spec_is_alpha(c)
}

/// Index of the first letter or digit at or after `i`, or the length of `s`.
pub open spec fn skip_separators(s: Seq<char>, i: int) -> int
    recommends
        0 <= i <= s.len(),
    decreases s.len() - i when 0 <= i <= s.len()
{
    if i >= s.len() {
        i
    } else if spec_is_alnum(s[i]) {
        i
    } else {
        skip_separators(s, i + 1)
    }
}

pub proof fn lemma_skip_separators_bounds(s: Seq<char>, i: int)
    requires
        0 <= i <= s.len(),
    ensures
        i <= skip_separators(s, i) <= s.len(),
        skip_separators(s, i) < s.len() ==> spec_is_alnum(s[skip_separators(s, i)]),
    decreases s.len() - i,
{
    if i < s.len() && !spec_is_alnum(s[i]) {
        lemma_skip_separators_bounds(s, i + 1);
    }
}

/// End of the maximal run of digits (`numeric`) or letters (otherwise)
/// starting at `i`.
pub open spec fn run_end(s: Seq<char>, i: int, numeric: bool) -> int
    recommends
        0 <= i <= s.len(),
    decreases s.len() - i when 0 <= i <= s.len()
{
    if i >= s.len() {
        i
    } else if (numeric && spec_is_digit(s[i])) || (!numeric && spec_is_alpha(s[i])) {
        run_end(s, i + 1, numeric)
    } else {
        i
    }
}

pub proof fn lemma_run_end_bounds(s: Seq<char>, i: int, numeric: bool)
    requires
        0 <= i <= s.len(),
    ensures
        i <= run_end(s, i, numeric) <= s.len(),
    decreases s.len() - i,
{
    if i < s.len() && ((numeric && spec_is_digit(s[i])) || (!numeric && spec_is_alpha(s[i]))) {
        lemma_run_end_bounds(s, i + 1, numeric);
    }
}

/// Index of the first character of the run `s[i..end)` that is not `'0'`.
pub open spec fn skip_zeros(s: Seq<char>, i: int, end: int) -> int
    recommends
        0 <= i <= end <= s.len(),
    decreases end - i when 0 <= i <= end
{
    if i >= end {
        i
    } else if s[i] == '0' {
        skip_zeros(s, i + 1, end)
    } else {
        i
    }
}

pub proof fn lemma_skip_zeros_bounds(s: Seq<char>, i: int, end: int)
    requires
        0 <= i <= end <= s.len(),
    ensures
        i <= skip_zeros(s, i, end) <= end,
    decreases end - i,
{
    if i < end && s[i] == '0' {
        lemma_skip_zeros_bounds(s, i + 1, end);
    }
}

/// Lexicographic three-way comparison of two character sequences by code
/// point, the shorter prefix ordering first.
pub open spec fn lex_cmp(a: Seq<char>, b: Seq<char>) -> int
    decreases a.len(),
{
    if a.len() == 0 && b.len() == 0 {
        0
    } else if a.len() == 0 {
        -1
    } else if b.len() == 0 {
        1
    } else if (a[0] as u32) < (b[0] as u32) {
        -1
    } else if (a[0] as u32) > (b[0] as u32) {
        1
    } else {
        lex_cmp(a.subrange(1, a.len() as int), b.subrange(1, b.len() as int))
    }
}

/// Outcome when one side of the run-by-run walk is exhausted: both ended on
/// equal runs is a tie; a remaining alphabetic run always loses; any other
/// remainder wins.
pub open spec fn rpm_tail(a: Seq<char>, b: Seq<char>, i: int, j: int) -> int {
    if i >= a.len() && j >= b.len() {
        0
    } else if (i >= a.len() && !(j < b.len() && spec_is_alpha(b[j]))) || (i < a.len()
        && spec_is_alpha(a[i])) {
        -1
    } else {
        1
    }
}

/// One field of a version, compared run by run from positions `i` and `j`:
/// skip separator runs (unequal separator-run lengths decide at once), then
/// compare one maximal numeric or alphabetic run (numeric beats alphabetic;
/// numeric runs compare by magnitude, alphabetic ones lexicographically), and
/// recurse past equal runs.
pub open spec fn rpm_loop(a: Seq<char>, b: Seq<char>, i: int, j: int) -> int
    recommends
        0 <= i <= a.len(),
        0 <= j <= b.len(),
    decreases a.len() - i + b.len() - j
        when 0 <= i <= a.len() && 0 <= j <= b.len()
        via rpm_loop_decreases
{
    if i >= a.len() || j >= b.len() {
        rpm_tail(a, b, i, j)
    } else {
        let ia = skip_separators(a, i);
        let jb = skip_separators(b, j);
        if ia >= a.len() || jb >= b.len() {
            rpm_tail(a, b, ia, jb)
        } else if ia - i != jb - j {
            if ia - i < jb - j {
                -1
            } else {
                1
            }
        } else {
            let numeric = spec_is_digit(a[ia]);
            let iend = run_end(a, ia, numeric);
            let jend = run_end(b, jb, numeric);
            if jend == jb {
                if numeric {
                    1
                } else {
                    -1
                }
            } else if numeric {
                let ia0 = skip_zeros(a, ia, iend);
                let jb0 = skip_zeros(b, jb, jend);
                if iend - ia0 > jend - jb0 {
                    1
                } else if jend - jb0 > iend - ia0 {
                    -1
                } else {
                    let rc = lex_cmp(a.subrange(ia0, iend), b.subrange(jb0, jend));
                    if rc != 0 {
                        rc
                    } else {
                        rpm_loop(a, b, iend, jend)
                    }
                }
            } else {
                let rc = lex_cmp(a.subrange(ia, iend), b.subrange(jb, jend));
                if rc != 0 {
                    rc
                } else {
                    rpm_loop(a, b, iend, jend)
                }
            }
        }
    }
}

#[via_fn]
proof fn rpm_loop_decreases(a: Seq<char>, b: Seq<char>, i: int, j: int) {
    if 0 <= i <= a.len() && 0 <= j <= b.len() && i < a.len() && j < b.len() {
        lemma_skip_separators_bounds(a, i);
        lemma_skip_separators_bounds(b, j);
        let ia = skip_separators(a, i);
        let jb = skip_separators(b, j);
        if ia < a.len() && jb < b.len() {
            let numeric = spec_is_digit(a[ia]);
            lemma_run_end_bounds(a, ia, numeric);
            lemma_run_end_bounds(b, jb, numeric);
            if numeric {
                lemma_skip_zeros_bounds(a, ia, run_end(a, ia, numeric));
                lemma_skip_zeros_bounds(b, jb, run_end(b, jb, numeric));
            }
        }
    }
}

/// Comparison of one whole field (epoch, version, or release): equal fields
/// tie, anything else is decided by the run-by-run walk.
pub open spec fn rpm_cmp(a: Seq<char>, b: Seq<char>) -> int {
    if a == b {
        0
    } else {
        rpm_loop(a, b, 0, 0)
    }
}

/// End of the leading digit run: where an epoch, if any, is terminated.
pub open spec fn epoch_end(s: Seq<char>) -> int {
    run_end(s, 0, true)
}

/// Whether `s` carries an explicit epoch, i.e. its leading digit run is
/// followed by `:`.
pub open spec fn has_epoch(s: Seq<char>) -> bool {
    epoch_end(s) < s.len() && s[epoch_end(s)] == ':'
}

/// The epoch field: the leading digits before `:` when present and
/// non-empty, and `"0"` otherwise.
pub open spec fn epoch_part(s: Seq<char>) -> Seq<char> {
    if has_epoch(s) && epoch_end(s) > 0 {
        s.subrange(0, epoch_end(s))
    } else {
        seq!['0']
    }
}

/// Where the upstream version begins: right after `epoch:` when present.
pub open spec fn ver_start(s: Seq<char>) -> int {
    if has_epoch(s) {
        epoch_end(s) + 1
    } else {
        0
    }
}

/// Index of the last `-` strictly before `i`, or `-1` when there is none.
pub open spec fn last_dash(s: Seq<char>, i: int) -> int
    recommends
        0 <= i <= s.len(),
    decreases i when 0 <= i
{
    if i <= 0 {
        -1
    } else if s[i - 1] == '-' {
        i - 1
    } else {
        last_dash(s, i - 1)
    }
}

pub proof fn lemma_last_dash_bounds(s: Seq<char>, i: int)
    requires
        0 <= i <= s.len(),
    ensures
        -1 <= last_dash(s, i) < i,
        last_dash(s, i) >= 0 ==> s[last_dash(s, i)] == '-',
    decreases i,
{
    if i > 0 && s[i - 1] != '-' {
        lemma_last_dash_bounds(s, i - 1);
    }
}

/// Where the release field is cut off: the last `-` of the whole string.
pub open spec fn rel_split(s: Seq<char>) -> int {
    last_dash(s, s.len() as int)
}

/// Whether `s` carries a release field after a `-`.
pub open spec fn has_rel(s: Seq<char>) -> bool {
    rel_split(s) >= ver_start(s)
}

/// End of the upstream version: the last `-` when a release is present,
/// otherwise the end of the string.
pub open spec fn ver_end(s: Seq<char>) -> int {
    if has_rel(s) {
        rel_split(s)
    } else {
        s.len() as int
    }
}

/// The upstream version field.
pub open spec fn version_part(s: Seq<char>) -> Seq<char> {
    s.subrange(ver_start(s), ver_end(s))
}

/// The release field after the last `-`.
pub open spec fn release_part(s: Seq<char>) -> Seq<char>
    recommends
        has_rel(s),
{
    s.subrange(rel_split(s) + 1, s.len() as int)
}

/// The full comparison: equal strings tie; otherwise epochs decide first,
/// then upstream versions, and the release fields only when both sides carry
/// one.
pub open spec fn spec_vercmp(a: Seq<char>, b: Seq<char>) -> int {
    if a == b {
        0
    } else {
        let e = rpm_cmp(epoch_part(a), epoch_part(b));
        if e != 0 {
            e
        } else {
            let v = rpm_cmp(version_part(a), version_part(b));
            if v != 0 {
                v
            } else if has_rel(a) && has_rel(b) {
                rpm_cmp(release_part(a), release_part(b))
            } else {
                0
            }
        }
    }
}

/// The full comparison as a three-way value.
pub open spec fn spec_vercmp_result(a: Seq<char>, b: Seq<char>) -> Vercmp {
    vercmp_of_int(spec_vercmp(a, b))
}

/// Law: comparing any version string with itself yields `Equal`.
pub proof fn lemma_vercmp_reflexive(a: Seq<char>)
    ensures
        spec_vercmp_result(a, a) == Vercmp::Equal,
{
}

fn is_digit(c: char) -> (r: bool)
    ensures
        r == spec_is_digit(c),
{
    let n = c as u32;
    48 <= n && n <= 57
}

fn is_alpha(c: char) -> (r: bool)
    ensures
        r == spec_is_alpha(c),
{
    let n = c as u32;
    (65 <= n && n <= 90) || (97 <= n && n <= 122)
}

fn is_alnum(c: char) -> (r: bool)
    ensures
        r == spec_is_alnum(c),
{
    is_digit(c) || is_alpha(c)
}

fn skip_separators_exec(s: &Vec<char>, i: usize) -> (r: usize)
    requires
        i <= s@.len(),
    ensures
        r as int == skip_separators(s@, i as int),
    decreases s@.len() - i,
{
    if i >= s.len() {
        i
    } else if is_alnum(s[i]) {
        i
    } else {
        skip_separators_exec(s, i + 1)
    }
}

fn run_end_exec(s: &Vec<char>, i: usize, numeric: bool) -> (r: usize)
    requires
        i <= s@.len(),
    ensures
        r as int == run_end(s@, i as int, numeric),
    decreases s@.len() - i,
{
    if i >= s.len() {
        i
    } else if (numeric && is_digit(s[i])) || (!numeric && is_alpha(s[i])) {
        run_end_exec(s, i + 1, numeric)
    } else {
        i
    }
}

fn skip_zeros_exec(s: &Vec<char>, i: usize, end: usize) -> (r: usize)
    requires
        i <= end <= s@.len(),
    ensures
        r as int == skip_zeros(s@, i as int, end as int),
    decreases end - i,
{
    if i >= end {
        i
    } else if s[i] == '0' {
        skip_zeros_exec(s, i + 1, end)
    } else {
        i
    }
}

fn last_dash_exec(s: &Vec<char>, i: usize) -> (r: Option<usize>)
    requires
        i <= s@.len(),
    ensures
        match r {
            Some(d) => d as int == last_dash(s@, i as int),
            None => last_dash(s@, i as int) == -1,
        },
    decreases i,
{
    if i == 0 {
        None
    } else if s[i - 1] == '-' {
        Some(i - 1)
    } else {
        last_dash_exec(s, i - 1)
    }
}

fn lex_cmp_exec(a: &Vec<char>, ai: usize, aend: usize, b: &Vec<char>, bj: usize, bend: usize) -> (r:
    i32)
    requires
        ai <= aend <= a@.len(),
        bj <= bend <= b@.len(),
    ensures
        r as int == lex_cmp(
            a@.subrange(ai as int, aend as int),
            b@.subrange(bj as int, bend as int),
        ),
    decreases aend - ai,
{
    let ghost sa = a@.subrange(ai as int, aend as int);
    let ghost sb = b@.subrange(bj as int, bend as int);
    if ai >= aend && bj >= bend {
        0
    } else if ai >= aend {
        -1
    } else if bj >= bend {
        1
    } else {
        let ca = a[ai];
        let cb = b[bj];
        proof {
            assert(sa[0] == ca);
            assert(sb[0] == cb);
        }
        if (ca as u32) < (cb as u32) {
            -1
        } else if (ca as u32) > (cb as u32) {
            1
        } else {
            let r = lex_cmp_exec(a, ai + 1, aend, b, bj + 1, bend);
            proof {
                assert(a@.subrange(ai + 1, aend as int) =~= sa.subrange(1, sa.len() as int));
                assert(b@.subrange(bj + 1, bend as int) =~= sb.subrange(1, sb.len() as int));
            }
            r
        }
    }
}

fn rpm_tail_exec(a: &Vec<char>, b: &Vec<char>, i: usize, j: usize) -> (r: i32)
    ensures
        r as int == rpm_tail(a@, b@, i as int, j as int),
{
    if i >= a.len() && j >= b.len() {
        0
    } else {
        let a_alpha = i < a.len() && is_alpha(a[i]);
        let b_alpha = j < b.len() && is_alpha(b[j]);
        if (i >= a.len() && !b_alpha) || a_alpha {
            -1
        } else {
            1
        }
    }
}

fn rpm_loop_exec(a: &Vec<char>, b: &Vec<char>, i: usize, j: usize) -> (r: i32)
    requires
        i <= a@.len(),
        j <= b@.len(),
    ensures
        r as int == rpm_loop(a@, b@, i as int, j as int),
    decreases a@.len() - i + b@.len() - j,
{
    if i >= a.len() || j >= b.len() {
        return rpm_tail_exec(a, b, i, j);
    }
    let ia = skip_separators_exec(a, i);
    let jb = skip_separators_exec(b, j);
    proof {
        lemma_skip_separators_bounds(a@, i as int);
        lemma_skip_separators_bounds(b@, j as int);
    }
    if ia >= a.len() || jb >= b.len() {
        return rpm_tail_exec(a, b, ia, jb);
    }
    if ia - i != jb - j {
        if ia - i < jb - j {
            return -1;
        } else {
            return 1;
        }
    }
    let numeric = is_digit(a[ia]);
    let iend = run_end_exec(a, ia, numeric);
    let jend = run_end_exec(b, jb, numeric);
    proof {
        lemma_run_end_bounds(a@, ia as int, numeric);
        lemma_run_end_bounds(b@, jb as int, numeric);
    }
    if jend == jb {
        if numeric {
            return 1;
        } else {
            return -1;
        }
    }
    if numeric {
        let ia0 = skip_zeros_exec(a, ia, iend);
        let jb0 = skip_zeros_exec(b, jb, jend);
        proof {
            lemma_skip_zeros_bounds(a@, ia as int, iend as int);
            lemma_skip_zeros_bounds(b@, jb as int, jend as int);
        }
        if iend - ia0 > jend - jb0 {
            return 1;
        }
        if jend - jb0 > iend - ia0 {
            return -1;
        }
        let rc = lex_cmp_exec(a, ia0, iend, b, jb0, jend);
        if rc != 0 {
            return rc;
        }
        rpm_loop_exec(a, b, iend, jend)
    } else {
        let rc = lex_cmp_exec(a, ia, iend, b, jb, jend);
        if rc != 0 {
            return rc;
        }
        rpm_loop_exec(a, b, iend, jend)
    }
}

fn rpm_cmp_exec(a: &Vec<char>, b: &Vec<char>) -> (r: i32)
    ensures
        r as int == rpm_cmp(a@, b@),
{
    if chars_eq(a, b) {
        0
    } else {
        rpm_loop_exec(a, b, 0, 0)
    }
}

fn epoch_vec(s: &Vec<char>) -> (r: Vec<char>)
    ensures
        r@ == epoch_part(s@),
{
    let d = run_end_exec(s, 0, true);
    proof {
        lemma_run_end_bounds(s@, 0, true);
    }
    if d < s.len() && s[d] == ':' && d > 0 {
        copy_range(s, 0, d)
    } else {
        let mut v: Vec<char> = Vec::new();
        v.push('0');
        proof {
            assert(v@ =~= seq!['0']);
        }
        v
    }
}

fn ver_start_exec(s: &Vec<char>) -> (r: usize)
    ensures
        r as int == ver_start(s@),
        r <= s@.len(),
{
    let d = run_end_exec(s, 0, true);
    proof {
        lemma_run_end_bounds(s@, 0, true);
    }
    if d < s.len() && s[d] == ':' {
        d + 1
    } else {
        0
    }
}

fn pkg_vercmp_chars(a: &Vec<char>, b: &Vec<char>) -> (r: i32)
    ensures
        r as int == spec_vercmp(a@, b@),
{
    if chars_eq(a, b) {
        return 0;
    }
    let ea = epoch_vec(a);
    let eb = epoch_vec(b);
    let rc = rpm_cmp_exec(&ea, &eb);
    if rc != 0 {
        return rc;
    }
    let vs_a = ver_start_exec(a);
    let vs_b = ver_start_exec(b);
    let ld_a = last_dash_exec(a, a.len());
    let ld_b = last_dash_exec(b, b.len());
    proof {
        lemma_last_dash_bounds(a@, a@.len() as int);
        lemma_last_dash_bounds(b@, b@.len() as int);
    }
    let ve_a = match ld_a {
        Some(d) => if d >= vs_a {
            d
        } else {
            a.len()
        },
        None => a.len(),
    };
    let ve_b = match ld_b {
        Some(d) => if d >= vs_b {
            d
        } else {
            b.len()
        },
        None => b.len(),
    };
    let va = copy_range(a, vs_a, ve_a);
    let vb = copy_range(b, vs_b, ve_b);
    let rc2 = rpm_cmp_exec(&va, &vb);
    if rc2 != 0 {
        return rc2;
    }
    match (ld_a, ld_b) {
        (Some(da), Some(db)) => {
            if da >= vs_a && db >= vs_b {
                let ra = copy_range(a, da + 1, a.len());
                let rb = copy_range(b, db + 1, b.len());
                rpm_cmp_exec(&ra, &rb)
            } else {
                0
            }
        },
        _ => 0,
    }
}

/// Compares two version strings under the pacman ordering scheme.
///
/// Both inputs must be NUL-free to have a C-style byte-string form; an
/// embedded NUL in either argument yields `Error::InvalidName` and no
/// comparison takes place. Otherwise the result is exactly the three-way
/// outcome of the epoch/version/release comparison.
pub fn vercmp(a: &str, b: &str) -> (r: Result<Vercmp, Error>)
    ensures
        (a@.contains('\0') || b@.contains('\0')) ==> r == Err::<Vercmp, Error>(Error::InvalidName),
        (!a@.contains('\0') && !b@.contains('\0')) ==> r == Ok::<Vercmp, Error>(
            spec_vercmp_result(a@, b@),
        ),
{
    let av = chars_of(a);
    let bv = chars_of(b);
    if contains_nul(&av) || contains_nul(&bv) {
        return Err(Error::InvalidName);
    }
    let rc = pkg_vercmp_chars(&av, &bv);
    Ok(Vercmp::from(rc))
}

} // verus!
