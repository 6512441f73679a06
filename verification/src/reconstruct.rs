//! The line-reconstruction engine: the clustering, merge and filter
//! pipeline that turns the raw fragments of one label into the final
//! ordered set of logical lines, together with one crop request per line.
//!
//! The pipeline runs in a strict order: band and noise filter, tolerant
//! ordering, merge pass, column filter, count check with a lexical
//! fallback, and finalization.

use core::cmp::Ordering;
use vstd::prelude::*;
use vstd::string::StringExecFns;
use vstd::string::StrSliceExecFns;
use crate::annotation::Annotation;
use crate::annotation::FragModel;
use crate::annotation::models;
use crate::geometry::BoundingBox;
use crate::lexicon::Lexicon;
use crate::lexicon::fully_known_in;
use crate::unicode::char_is_numeric;
use crate::unicode::char_is_uppercase;
use crate::unicode::is_numeric_char;
use crate::unicode::is_upper_char;

verus! {

pub open spec fn abs_val(x: int) -> int {
    if x >= 0 {
        x
    } else {
        -x
    }
}

// ---------------------------------------------------------------------------
// Layout profiles
// ---------------------------------------------------------------------------
/// The buyer variant applies when any fragment reads exactly `BUYER`.
pub open spec fn spec_is_buyer(frags: Seq<FragModel>) -> bool {
    exists|i: int| 0 <= i < frags.len() && (#[trigger] frags[i]).description == "BUYER"@
}

/// Expected vertical bands of the selected variant.
pub open spec fn spec_levels(buyer: bool) -> Seq<i64> {
    if buyer {
        seq![1450i64, 3190i64, 4420i64]
    } else {
        seq![1130i64, 1480i64, 2550i64, 2900i64, 3970i64, 4300i64, 4420i64, 4790i64]
    }
}

/// Expected count of output lines of the selected variant.
pub open spec fn spec_expected(buyer: bool) -> usize {
    if buyer {
        6usize
    } else {
        9usize
    }
}

/// The fixed right-edge thresholds of the column filter, shared by both
/// variants.
pub open spec fn end_thresholds() -> Seq<i64> {
    seq![450i64, 940i64, 1220i64, 1980i64, 2280i64, 3025i64, 3160i64]
}

fn any_buyer(frags: &Vec<Annotation>) -> (r: bool)
    ensures
        r == spec_is_buyer(models(frags@)),
{
    let buyer = String::from_str("BUYER");
    let mut i: usize = 0;
    while i < frags.len()
        invariant
            buyer@ == "BUYER"@,
            i <= frags.len(),
            forall|j: int| 0 <= j < i ==> (#[trigger] models(frags@)[j]).description != "BUYER"@,
        decreases frags.len() - i,
    {
        if frags[i].description == buyer {
            proof {
                assert(models(frags@)[i as int].description == "BUYER"@);
            }
            return true;
        }
        i = i + 1;
    }
    false
}

pub fn buyer_levels_vec() -> (r: Vec<i64>)
    ensures
        r@ == spec_levels(true),
{
    let mut v: Vec<i64> = Vec::new();
    v.push(1450);
    v.push(3190);
    v.push(4420);
    proof {
        assert(v@ =~= spec_levels(true));
    }
    v
}

pub fn default_levels_vec() -> (r: Vec<i64>)
    ensures
        r@ == spec_levels(false),
{
    let mut v: Vec<i64> = Vec::new();
    v.push(1130);
    v.push(1480);
    v.push(2550);
    v.push(2900);
    v.push(3970);
    v.push(4300);
    v.push(4420);
    v.push(4790);
    proof {
        assert(v@ =~= spec_levels(false));
    }
    v
}

pub fn end_thresholds_vec() -> (r: Vec<i64>)
    ensures
        r@ == end_thresholds(),
{
    let mut v: Vec<i64> = Vec::new();
    v.push(450);
    v.push(940);
    v.push(1220);
    v.push(1980);
    v.push(2280);
    v.push(3025);
    v.push(3160);
    proof {
        assert(v@ =~= end_thresholds());
    }
    v
}

// ---------------------------------------------------------------------------
// Tolerant comparison
// ---------------------------------------------------------------------------
/// Ordering of two key values under a tolerance: values within `tol` of
/// each other classify as equal, all others compare numerically.
pub open spec fn tol_cmp(a: int, b: int, tol: int) -> Ordering {
    if a - b > tol {
        Ordering::Greater
    } else if b - a > tol {
        Ordering::Less
    } else {
        Ordering::Equal
    }
}

/// Tolerant-comparator law: the comparator is reflexive, and any two values
/// within the tolerance of each other classify as equal in either order of
/// comparison.
pub proof fn lemma_tol_cmp_equal_classification(a: int, b: int, tol: int)
    requires
        tol >= 0,
    ensures
        tol_cmp(a, a, tol) == Ordering::Equal,
        abs_val(a - b) <= tol ==> tol_cmp(a, b, tol) == Ordering::Equal && tol_cmp(b, a, tol)
            == Ordering::Equal,
{
}

// ---------------------------------------------------------------------------
// Stage 1: band and noise filter
// ---------------------------------------------------------------------------
/// Whether some target lies within `tol` of `v`.
pub open spec fn near_any(targets: Seq<i64>, v: int, tol: int) -> bool {
    exists|j: int| 0 <= j < targets.len() && abs_val((#[trigger] targets[j]) - v) <= tol
}

/// Boilerplate text: every character uppercase or numeric (stamped codes).
pub open spec fn is_boilerplate(d: Seq<char>) -> bool {
    forall|i: int| 0 <= i < d.len() ==> is_upper_char(#[trigger] d[i]) || is_numeric_char(d[i])
}

/// The fixed set of noise tokens discarded outright.
pub open spec fn is_noise_text(d: Seq<char>) -> bool {
    d == "Supplier"@ || d == "No"@ || d == ":"@ || d == "|"@ || d == "."@ || d == "Mr"@ || d
        == "lo"@
}

/// A fragment survives the band and noise filter when its box is no wider
/// than 500 units, its top lies within 200 units of some expected band, and
/// its text is neither boilerplate nor a noise token.
pub open spec fn passes_band_filter(f: FragModel, levels: Seq<i64>) -> bool {
    f.bounding_poly.spec_width() <= 500 && near_any(levels, f.bounding_poly.spec_top(), 200)
        && !is_boilerplate(f.description) && !is_noise_text(f.description)
}

/// The fragments surviving the band and noise filter, in order.
pub open spec fn band_filter(s: Seq<FragModel>, levels: Seq<i64>) -> Seq<FragModel>
    decreases s.len(),
{
    if s.len() == 0 {
        Seq::empty()
    } else {
        let rest = band_filter(s.drop_last(), levels);
        if passes_band_filter(s.last(), levels) {
            rest.push(s.last())
        } else {
            rest
        }
    }
}

fn near_any_exec(targets: &Vec<i64>, v: i64, tol: i64) -> (r: bool)
    requires
        forall|j: int| 0 <= j < targets@.len() ==> -10000 <= #[trigger] targets@[j] <= 10000,
        i32::MIN <= v <= i32::MAX,
        0 <= tol <= 10000,
    ensures
        r == near_any(targets@, v as int, tol as int),
{
    let mut j: usize = 0;
    while j < targets.len()
        invariant
            forall|k: int| 0 <= k < targets@.len() ==> -10000 <= #[trigger] targets@[k] <= 10000,
            i32::MIN <= v <= i32::MAX,
            0 <= tol <= 10000,
            j <= targets.len(),
            forall|k: int| 0 <= k < j ==> abs_val((#[trigger] targets@[k]) - v) > tol,
        decreases targets.len() - j,
    {
        let d = targets[j] - v;
        if -tol <= d && d <= tol {
            return true;
        }
        j = j + 1;
    }
    false
}

fn is_boilerplate_exec(d: &str) -> (r: bool)
    ensures
        r == is_boilerplate(d@),
{
    let n = d.unicode_len();
    let mut i: usize = 0;
    while i < n
        invariant
            n == d@.len(),
            i <= n,
            forall|j: int|
                0 <= j < i ==> is_upper_char(#[trigger] d@[j]) || is_numeric_char(d@[j]),
        decreases n - i,
    {
        let c = d.get_char(i);
        if !char_is_uppercase(c) && !char_is_numeric(c) {
            return false;
        }
        i = i + 1;
    }
    true
}

fn is_noise_exec(d: &String) -> (r: bool)
    ensures
        r == is_noise_text(d@),
{
    *d == String::from_str("Supplier") || *d == String::from_str("No") || *d == String::from_str(
        ":",
    ) || *d == String::from_str("|") || *d == String::from_str(".") || *d == String::from_str("Mr")
        || *d == String::from_str("lo")
}

fn passes_band_filter_exec(a: &Annotation, levels: &Vec<i64>) -> (r: bool)
    requires
        forall|j: int| 0 <= j < levels@.len() ==> -10000 <= #[trigger] levels@[j] <= 10000,
    ensures
        r == passes_band_filter(a@, levels@),
{
    let left = a.bounding_poly.left() as i64;
    let right = a.bounding_poly.right() as i64;
    let top = a.bounding_poly.top();
    (right - left <= 500) && near_any_exec(levels, top as i64, 200) && !is_boilerplate_exec(
        a.description.as_str(),
    ) && !is_noise_exec(&a.description)
}

pub fn band_noise_filter(frags: Vec<Annotation>, levels: &Vec<i64>) -> (r: Vec<Annotation>)
    requires
        forall|j: int| 0 <= j < levels@.len() ==> -10000 <= #[trigger] levels@[j] <= 10000,
    ensures
        models(r@) == band_filter(models(frags@), levels@),
{
    let ghost orig = models(frags@);
    let mut rest = frags;
    let mut out: Vec<Annotation> = Vec::new();
    let ghost mut done: Seq<FragModel> = Seq::empty();
    proof {
        assert(orig =~= done + models(rest@));
        assert(models(out@) =~= band_filter(done, levels@));
    }
    while rest.len() > 0
        invariant
            forall|j: int| 0 <= j < levels@.len() ==> -10000 <= #[trigger] levels@[j] <= 10000,
            orig == done + models(rest@),
            models(out@) == band_filter(done, levels@),
        decreases rest.len(),
    {
        let ghost pre = rest@;
        let ghost prev_done = done;
        let a = rest.remove(0);
        let keep = passes_band_filter_exec(&a, levels);
        proof {
            assert(models(pre) =~= seq![a@] + models(rest@));
            done = prev_done.push(a@);
            assert(done.drop_last() =~= prev_done);
            assert(orig =~= done + models(rest@));
        }
        if keep {
            out.push(a);
            proof {
                assert(models(out@) =~= band_filter(prev_done, levels@).push(a@));
            }
        }
    }
    proof {
        assert(orig =~= done);
    }
    out
}

// ---------------------------------------------------------------------------
// Stage 2: tolerant ordering
// ---------------------------------------------------------------------------
/// Which derived extent a sorting pass orders by.
#[derive(Clone, Copy, PartialEq, Eq, Structural, Debug)]
pub enum SortKey {
    ByLeft,
    ByTop,
}

pub open spec fn key_of(k: SortKey, f: FragModel) -> int {
    match k {
        SortKey::ByLeft => f.bounding_poly.spec_left(),
        SortKey::ByTop => f.bounding_poly.spec_top(),
    }
}

/// Stable insertion of `x` into `s` from the right: `x` moves left past
/// exactly the elements whose key compares greater than its own under the
/// tolerance.
pub open spec fn insert_by(s: Seq<FragModel>, x: FragModel, k: SortKey, tol: int) -> Seq<
    FragModel,
>
    decreases s.len(),
{
    if s.len() == 0 {
        seq![x]
    } else if key_of(k, s.last()) - key_of(k, x) > tol {
        insert_by(s.drop_last(), x, k, tol).push(s.last())
    } else {
        s.push(x)
    }
}

/// Stable insertion sort of `s` under the tolerant comparator: with
/// tolerance zero this is an exact stable sort by the key.
pub open spec fn sort_by_tol(s: Seq<FragModel>, k: SortKey, tol: int) -> Seq<FragModel>
    decreases s.len(),
{
    if s.len() == 0 {
        Seq::empty()
    } else {
        insert_by(sort_by_tol(s.drop_last(), k, tol), s.last(), k, tol)
    }
}

/// The sort steps exactly by the tolerant comparator: an element already
/// placed is passed over iff its key classifies as greater than the new
/// element's key.
pub proof fn lemma_insert_by_follows_comparator(s: Seq<FragModel>, x: FragModel, k: SortKey, tol: int)
    requires
        s.len() > 0,
    ensures
        insert_by(s, x, k, tol) == if tol_cmp(key_of(k, s.last()), key_of(k, x), tol)
            == Ordering::Greater {
            insert_by(s.drop_last(), x, k, tol).push(s.last())
        } else {
            s.push(x)
        },
{
}

/// Inserting one element grows the sequence by exactly one.
pub proof fn lemma_insert_by_len(s: Seq<FragModel>, x: FragModel, k: SortKey, tol: int)
    ensures
        insert_by(s, x, k, tol).len() == s.len() + 1,
    decreases s.len(),
{
    if s.len() > 0 && key_of(k, s.last()) - key_of(k, x) > tol {
        lemma_insert_by_len(s.drop_last(), x, k, tol);
    }
}

/// Sorting keeps the length.
pub proof fn lemma_sort_by_tol_len(s: Seq<FragModel>, k: SortKey, tol: int)
    ensures
        sort_by_tol(s, k, tol).len() == s.len(),
    decreases s.len(),
{
    if s.len() > 0 {
        lemma_sort_by_tol_len(s.drop_last(), k, tol);
        lemma_insert_by_len(sort_by_tol(s.drop_last(), k, tol), s.last(), k, tol);
    }
}

/// Tolerant order: no adjacent pair classifies as greater-than under the
/// comparator.
pub open spec fn tol_ordered(s: Seq<FragModel>, k: SortKey, tol: int) -> bool {
    forall|i: int, j: int|
        0 <= i && j == i + 1 && j < s.len() ==> tol_cmp(
            key_of(k, #[trigger] s[i]),
            key_of(k, #[trigger] s[j]),
            tol,
        ) != Ordering::Greater
}

proof fn lemma_insert_by_last(s: Seq<FragModel>, x: FragModel, k: SortKey, tol: int)
    ensures
        insert_by(s, x, k, tol).last() == x || (s.len() > 0 && insert_by(s, x, k, tol).last()
            == s.last()),
{
}

proof fn lemma_push_ordered(u: Seq<FragModel>, z: FragModel, k: SortKey, tol: int)
    requires
        tol_ordered(u, k, tol),
        u.len() > 0 ==> tol_cmp(key_of(k, u.last()), key_of(k, z), tol) != Ordering::Greater,
    ensures
        tol_ordered(u.push(z), k, tol),
{
    let res = u.push(z);
    assert forall|i: int, j: int|
        0 <= i && j == i + 1 && j < res.len() implies tol_cmp(
        key_of(k, #[trigger] res[i]),
        key_of(k, #[trigger] res[j]),
        tol,
    ) != Ordering::Greater by {
        if j < u.len() {
            assert(res[i] == u[i]);
            assert(res[j] == u[j]);
        } else {
            assert(res[i] == u.last());
            assert(res[j] == z);
        }
    }
}

proof fn lemma_insert_by_ordered(s: Seq<FragModel>, x: FragModel, k: SortKey, tol: int)
    requires
        tol >= 0,
        tol_ordered(s, k, tol),
    ensures
        tol_ordered(insert_by(s, x, k, tol), k, tol),
    decreases s.len(),
{
    if s.len() == 0 {
        assert(tol_ordered(insert_by(s, x, k, tol), k, tol));
    } else if key_of(k, s.last()) - key_of(k, x) > tol {
        let dl = s.drop_last();
        assert forall|i: int, j: int|
            0 <= i && j == i + 1 && j < dl.len() implies tol_cmp(
            key_of(k, #[trigger] dl[i]),
            key_of(k, #[trigger] dl[j]),
            tol,
        ) != Ordering::Greater by {
            assert(dl[i] == s[i]);
            assert(dl[j] == s[j]);
        }
        lemma_insert_by_ordered(dl, x, k, tol);
        lemma_insert_by_last(dl, x, k, tol);
        let inner = insert_by(dl, x, k, tol);
        if inner.last() == x {
            assert(tol_cmp(key_of(k, inner.last()), key_of(k, s.last()), tol)
                != Ordering::Greater);
        } else {
            assert(dl.last() == s[s.len() - 2]);
            assert(s.last() == s[s.len() - 1]);
            assert(tol_cmp(key_of(k, s[s.len() - 2]), key_of(k, s[s.len() - 1]), tol)
                != Ordering::Greater);
        }
        lemma_push_ordered(inner, s.last(), k, tol);
        assert(insert_by(s, x, k, tol) == inner.push(s.last()));
    } else {
        lemma_push_ordered(s, x, k, tol);
        assert(insert_by(s, x, k, tol) == s.push(x));
    }
}

/// Ordering law: the tolerant sort leaves no adjacent pair out of order
/// under the comparator — with tolerance zero, an exact sort by the key.
pub proof fn lemma_sort_by_tol_ordered(s: Seq<FragModel>, k: SortKey, tol: int)
    requires
        tol >= 0,
    ensures
        tol_ordered(sort_by_tol(s, k, tol), k, tol),
    decreases s.len(),
{
    if s.len() == 0 {
        assert(tol_ordered(sort_by_tol(s, k, tol), k, tol));
    } else {
        lemma_sort_by_tol_ordered(s.drop_last(), k, tol);
        lemma_insert_by_ordered(sort_by_tol(s.drop_last(), k, tol), s.last(), k, tol);
    }
}

proof fn lemma_insert_by_multiset(s: Seq<FragModel>, x: FragModel, k: SortKey, tol: int)
    ensures
        insert_by(s, x, k, tol).to_multiset() == s.to_multiset().insert(x),
    decreases s.len(),
{
    broadcast use vstd::seq_lib::group_to_multiset_ensures;

    if s.len() == 0 {
        assert(seq![x] =~= Seq::<FragModel>::empty().push(x));
        assert(insert_by(s, x, k, tol).to_multiset() =~= s.to_multiset().insert(x));
    } else if key_of(k, s.last()) - key_of(k, x) > tol {
        let dl = s.drop_last();
        lemma_insert_by_multiset(dl, x, k, tol);
        assert(s =~= dl.push(s.last()));
        assert(dl.to_multiset().insert(x).insert(s.last()) =~= dl.to_multiset().insert(
            s.last(),
        ).insert(x));
    }
}

/// Permutation law: sorting only rearranges — the multiset of fragments
/// is unchanged.
pub proof fn lemma_sort_by_tol_multiset(s: Seq<FragModel>, k: SortKey, tol: int)
    ensures
        sort_by_tol(s, k, tol).to_multiset() == s.to_multiset(),
    decreases s.len(),
{
    broadcast use vstd::seq_lib::group_to_multiset_ensures;

    if s.len() > 0 {
        let dl = s.drop_last();
        lemma_sort_by_tol_multiset(dl, k, tol);
        lemma_insert_by_multiset(sort_by_tol(dl, k, tol), s.last(), k, tol);
        assert(s =~= dl.push(s.last()));
    }
}

proof fn lemma_insert_by_at(s: Seq<FragModel>, x: FragModel, k: SortKey, tol: int, j: int)
    requires
        0 <= j <= s.len(),
        forall|m: int| j <= m < s.len() ==> key_of(k, #[trigger] s[m]) - key_of(k, x) > tol,
        j > 0 ==> key_of(k, s[j - 1]) - key_of(k, x) <= tol,
    ensures
        insert_by(s, x, k, tol) == s.take(j) + seq![x] + s.skip(j),
    decreases s.len(),
{
    if j == s.len() {
        assert(insert_by(s, x, k, tol) =~= s.take(j) + seq![x] + s.skip(j));
    } else {
        assert(key_of(k, s[s.len() - 1]) - key_of(k, x) > tol);
        let dl = s.drop_last();
        assert(forall|m: int| j <= m < dl.len() ==> key_of(k, #[trigger] dl[m]) - key_of(k, x)
            > tol);
        lemma_insert_by_at(dl, x, k, tol, j);
        assert((dl.take(j) + seq![x] + dl.skip(j)).push(s.last()) =~= s.take(j) + seq![x] + s.skip(
            j,
        ));
    }
}

fn key_exec(k: SortKey, a: &Annotation) -> (r: i64)
    ensures
        r == key_of(k, a@),
        i32::MIN <= r <= i32::MAX,
{
    match k {
        SortKey::ByLeft => a.bounding_poly.left() as i64,
        SortKey::ByTop => a.bounding_poly.top() as i64,
    }
}

fn insert_sorted(out: &mut Vec<Annotation>, x: Annotation, k: SortKey, tol: i64)
    requires
        tol >= 0,
    ensures
        models(final(out)@) == insert_by(models(old(out)@), x@, k, tol as int),
{
    let kx = key_exec(k, &x);
    let mut j: usize = out.len();
    while j > 0 && key_exec(k, &out[j - 1]) - kx > tol
        invariant
            out@ == old(out)@,
            tol >= 0,
            kx == key_of(k, x@),
            i32::MIN <= kx <= i32::MAX,
            j <= out@.len(),
            forall|m: int|
                j <= m < out@.len() ==> key_of(k, #[trigger] models(out@)[m]) - key_of(k, x@)
                    > tol,
        decreases j,
    {
        j = j - 1;
    }
    proof {
        lemma_insert_by_at(models(out@), x@, k, tol as int, j as int);
    }
    let ghost pre = models(out@);
    out.insert(j, x);
    proof {
        assert(models(out@) =~= pre.take(j as int) + seq![x@] + pre.skip(j as int));
    }
}

/// Stable insertion sort of the fragments by the chosen key under the
/// given tolerance.
pub fn sort_frags(frags: Vec<Annotation>, k: SortKey, tol: i64) -> (r: Vec<Annotation>)
    requires
        tol >= 0,
    ensures
        models(r@) == sort_by_tol(models(frags@), k, tol as int),
{
    let ghost orig = models(frags@);
    let mut rest = frags;
    let mut out: Vec<Annotation> = Vec::new();
    let ghost mut done: Seq<FragModel> = Seq::empty();
    proof {
        assert(orig =~= done + models(rest@));
        assert(models(out@) =~= sort_by_tol(done, k, tol as int));
    }
    while rest.len() > 0
        invariant
            tol >= 0,
            orig == done + models(rest@),
            models(out@) == sort_by_tol(done, k, tol as int),
        decreases rest.len(),
    {
        let ghost pre = rest@;
        let ghost prev_done = done;
        let a = rest.remove(0);
        insert_sorted(&mut out, a, k, tol);
        proof {
            assert(models(pre) =~= seq![a@] + models(rest@));
            done = prev_done.push(a@);
            assert(done.drop_last() =~= prev_done);
            assert(orig =~= done + models(rest@));
            assert(sort_by_tol(done, k, tol as int) == insert_by(
                sort_by_tol(prev_done, k, tol as int),
                a@,
                k,
                tol as int,
            ));
        }
    }
    proof {
        assert(orig =~= done);
    }
    out
}

// ---------------------------------------------------------------------------
// Stage 3: merge pass
// ---------------------------------------------------------------------------
/// Adjacent fragments coalesce when their tops differ by at most 100 units
/// and the horizontal gap between them is at most 100 units.
pub open spec fn can_merge(a: FragModel, b: FragModel) -> bool {
    abs_val(a.bounding_poly.spec_top() - b.bounding_poly.spec_top()) <= 100 && abs_val(
        b.bounding_poly.spec_left() - a.bounding_poly.spec_right(),
    ) <= 100
}

/// The coalesced fragment: descriptions concatenated — joined by a single
/// space unless the horizontal gap is at most 10 units — the boxes merged
/// into their hull, the first fragment's locale kept.
pub open spec fn merged_frag(a: FragModel, b: FragModel) -> FragModel {
    FragModel {
        locale: a.locale,
        description: if abs_val(b.bounding_poly.spec_left() - a.bounding_poly.spec_right())
            <= 10 {
            a.description + b.description
        } else {
            a.description + " "@ + b.description
        },
        bounding_poly: a.bounding_poly.spec_merge(b.bounding_poly),
    }
}

/// One left-to-right pass over the ordered fragments, coalescing each
/// mergeable neighbour into the running fragment; a freshly merged
/// fragment may merge again with the next one.
pub open spec fn coalesce_from(acc: FragModel, rest: Seq<FragModel>) -> Seq<FragModel>
    decreases rest.len(),
{
    if rest.len() == 0 {
        seq![acc]
    } else if can_merge(acc, rest[0]) {
        coalesce_from(merged_frag(acc, rest[0]), rest.drop_first())
    } else {
        seq![acc] + coalesce_from(rest[0], rest.drop_first())
    }
}

pub open spec fn coalesce_all(s: Seq<FragModel>) -> Seq<FragModel> {
    if s.len() == 0 {
        Seq::empty()
    } else {
        coalesce_from(s[0], s.drop_first())
    }
}

pub fn merge_pass(frags: Vec<Annotation>) -> (r: Vec<Annotation>)
    ensures
        models(r@) == coalesce_all(models(frags@)),
{
    let ghost orig = models(frags@);
    let mut rest = frags;
    let mut out: Vec<Annotation> = Vec::new();
    if rest.len() == 0 {
        proof {
            assert(models(out@) =~= coalesce_all(orig));
        }
        return out;
    }
    let ghost pre0 = rest@;
    let mut acc = rest.remove(0);
    proof {
        assert(acc@ == orig[0]);
        assert(models(rest@) =~= models(pre0).drop_first());
        assert(models(out@) + coalesce_from(acc@, models(rest@)) =~= coalesce_all(orig));
    }
    while rest.len() > 0
        invariant
            models(out@) + coalesce_from(acc@, models(rest@)) == coalesce_all(orig),
        decreases rest.len(),
    {
        let ghost pre = rest@;
        let ghost prev_acc = acc@;
        let b = rest.remove(0);
        proof {
            assert(models(pre) =~= seq![b@] + models(rest@));
            assert(models(pre).drop_first() =~= models(rest@));
        }
        let top_a = acc.bounding_poly.top() as i64;
        let top_b = b.bounding_poly.top() as i64;
        let dt = if top_a >= top_b {
            top_a - top_b
        } else {
            top_b - top_a
        };
        let left_b = b.bounding_poly.left() as i64;
        let right_a = acc.bounding_poly.right() as i64;
        let gap = if left_b >= right_a {
            left_b - right_a
        } else {
            right_a - left_b
        };
        if dt <= 100 && gap <= 100 {
            let Annotation { locale, description, bounding_poly } = acc;
            let description = if gap <= 10 {
                description.concat(b.description.as_str())
            } else {
                description.concat(" ").concat(b.description.as_str())
            };
            let merged_box = bounding_poly.merge(&b.bounding_poly);
            acc = Annotation { locale, description, bounding_poly: merged_box };
            proof {
                assert(acc@ == merged_frag(prev_acc, b@));
                assert(coalesce_from(prev_acc, models(pre)) == coalesce_from(
                    acc@,
                    models(rest@),
                ));
            }
        } else {
            let ghost prev_out = models(out@);
            out.push(acc);
            acc = b;
            proof {
                assert(coalesce_from(prev_acc, models(pre)) == seq![prev_acc] + coalesce_from(
                    b@,
                    models(rest@),
                ));
                assert(models(out@) =~= prev_out + seq![prev_acc]);
                assert((prev_out + seq![prev_acc]) + coalesce_from(acc@, models(rest@))
                    =~= prev_out + (seq![prev_acc] + coalesce_from(acc@, models(rest@))));
            }
        }
    }
    let ghost prev_out = models(out@);
    proof {
        assert(models(rest@) =~= Seq::<FragModel>::empty());
        assert(coalesce_from(acc@, models(rest@)) == seq![acc@]);
    }
    out.push(acc);
    proof {
        assert(models(out@) =~= prev_out + seq![acc@]);
    }
    out
}

// ---------------------------------------------------------------------------
// Stage 4: column filter
// ---------------------------------------------------------------------------
/// A merged fragment survives the column filter when its text is at most
/// 50 characters and its right extent lies within 200 units of one of the
/// fixed end thresholds.
pub open spec fn passes_column_filter(f: FragModel) -> bool {
    f.description.len() <= 50 && near_any(end_thresholds(), f.bounding_poly.spec_right(), 200)
}

pub open spec fn column_filter(s: Seq<FragModel>) -> Seq<FragModel>
    decreases s.len(),
{
    if s.len() == 0 {
        Seq::empty()
    } else {
        let rest = column_filter(s.drop_last());
        if passes_column_filter(s.last()) {
            rest.push(s.last())
        } else {
            rest
        }
    }
}

pub fn column_filter_exec(frags: Vec<Annotation>) -> (r: Vec<Annotation>)
    ensures
        models(r@) == column_filter(models(frags@)),
{
    let ends = end_thresholds_vec();
    proof {
        assert(forall|j: int| 0 <= j < ends@.len() ==> -10000 <= #[trigger] ends@[j] <= 10000);
    }
    let ghost orig = models(frags@);
    let mut rest = frags;
    let mut out: Vec<Annotation> = Vec::new();
    let ghost mut done: Seq<FragModel> = Seq::empty();
    proof {
        assert(orig =~= done + models(rest@));
        assert(models(out@) =~= column_filter(done));
    }
    while rest.len() > 0
        invariant
            ends@ == end_thresholds(),
            forall|j: int| 0 <= j < ends@.len() ==> -10000 <= #[trigger] ends@[j] <= 10000,
            orig == done + models(rest@),
            models(out@) == column_filter(done),
        decreases rest.len(),
    {
        let ghost pre = rest@;
        let ghost prev_done = done;
        let a = rest.remove(0);
        let keep = a.description.as_str().unicode_len() <= 50 && near_any_exec(
            &ends,
            a.bounding_poly.right() as i64,
            200,
        );
        proof {
            assert(models(pre) =~= seq![a@] + models(rest@));
            done = prev_done.push(a@);
            assert(done.drop_last() =~= prev_done);
            assert(orig =~= done + models(rest@));
        }
        if keep {
            out.push(a);
            proof {
                assert(models(out@) =~= column_filter(prev_done).push(a@));
            }
        }
    }
    proof {
        assert(orig =~= done);
    }
    out
}

// ---------------------------------------------------------------------------
// Stage 5: count check with dictionary fallback
// ---------------------------------------------------------------------------
/// The fragments whose whole text the lexical validator confirms.
pub open spec fn dict_filter(s: Seq<FragModel>, lex: Seq<Seq<char>>) -> Seq<FragModel>
    decreases s.len(),
{
    if s.len() == 0 {
        Seq::empty()
    } else {
        let rest = dict_filter(s.drop_last(), lex);
        if fully_known_in(lex, s.last().description) {
            rest.push(s.last())
        } else {
            rest
        }
    }
}

pub fn dict_filter_exec(frags: Vec<Annotation>, lexicon: &Lexicon) -> (r: Vec<Annotation>)
    ensures
        models(r@) == dict_filter(models(frags@), lexicon@),
{
    let ghost orig = models(frags@);
    let mut rest = frags;
    let mut out: Vec<Annotation> = Vec::new();
    let ghost mut done: Seq<FragModel> = Seq::empty();
    proof {
        assert(orig =~= done + models(rest@));
        assert(models(out@) =~= dict_filter(done, lexicon@));
    }
    while rest.len() > 0
        invariant
            orig == done + models(rest@),
            models(out@) == dict_filter(done, lexicon@),
        decreases rest.len(),
    {
        let ghost pre = rest@;
        let ghost prev_done = done;
        let a = rest.remove(0);
        let keep = lexicon.is_fully_known(a.description.as_str());
        proof {
            assert(models(pre) =~= seq![a@] + models(rest@));
            done = prev_done.push(a@);
            assert(done.drop_last() =~= prev_done);
            assert(orig =~= done + models(rest@));
        }
        if keep {
            out.push(a);
            proof {
                assert(models(out@) =~= dict_filter(prev_done, lexicon@).push(a@));
            }
        }
    }
    proof {
        assert(orig =~= done);
    }
    out
}

// ---------------------------------------------------------------------------
// Stage 6: finalize
// ---------------------------------------------------------------------------
pub const CROP_WIDTH: u32 = 960;

pub const CROP_HEIGHT: u32 = 1100;

pub const CROP_SCALE_PERCENT: u32 = 25;

pub const CROP_X_OFFSET: i64 = 850;

pub const CROP_Y_OFFSET: i64 = 1160;

/// One request to the external image tool: crop the fixed-size window at
/// `(x, y)` out of the source image, scale it, and store it under the
/// given zero-based output-line index.
#[derive(Clone, Copy, PartialEq, Eq, Structural, Debug)]
pub struct CropRequest {
    pub x: i64,
    pub y: i64,
    pub width: u32,
    pub height: u32,
    pub scale_percent: u32,
    pub index: usize,
}

/// The crop window for a retained value fragment: a fixed-size window
/// anchored relative to the fragment's right and bottom extents.
pub open spec fn spec_crop(b: BoundingBox, i: int) -> CropRequest {
    CropRequest {
        x: (b.spec_right() - CROP_X_OFFSET) as i64,
        y: (b.spec_bottom() - CROP_Y_OFFSET) as i64,
        width: CROP_WIDTH,
        height: CROP_HEIGHT,
        scale_percent: CROP_SCALE_PERCENT,
        index: i as usize,
    }
}

/// One transcript line: the section header, a separator, the value.
pub open spec fn spec_line(header: Seq<char>, value: Seq<char>) -> Seq<char> {
    header + " - "@ + value
}

/// The reconstruction output for one identifier: the section header, the
/// ordered transcript lines, and one crop request per line.
pub struct Extraction {
    pub header: String,
    pub lines: Vec<String>,
    pub crops: Vec<CropRequest>,
}

#[verifier::ext_equal]
pub struct ExtractionModel {
    pub header: Seq<char>,
    pub lines: Seq<Seq<char>>,
    pub crops: Seq<CropRequest>,
}

impl View for Extraction {
    type V = ExtractionModel;

    open spec fn view(&self) -> ExtractionModel {
        ExtractionModel {
            header: self.header@,
            lines: crate::lexicon::string_views(self.lines@),
            crops: self.crops@,
        }
    }
}

// ---------------------------------------------------------------------------
// The whole pipeline
// ---------------------------------------------------------------------------
/// The fragments surviving the geometric stages (band and noise filter,
/// tolerant ordering, merge pass, column filter).
pub open spec fn spec_stage4(frags: Seq<FragModel>) -> Seq<FragModel> {
    let buyer = spec_is_buyer(frags);
    column_filter(
        coalesce_all(
            sort_by_tol(
                sort_by_tol(band_filter(frags, spec_levels(buyer)), SortKey::ByLeft, 50),
                SortKey::ByTop,
                50,
            ),
        ),
    )
}

/// The count-check gate: output is produced iff exactly `expected + 1`
/// fragments survive the geometric stages, or survive the dictionary
/// fallback applied after a failed count check.
pub open spec fn spec_gate(frags: Seq<FragModel>, lex: Seq<Seq<char>>) -> bool {
    let m = spec_stage4(frags);
    let n = spec_expected(spec_is_buyer(frags)) as int;
    m.len() == n + 1 || dict_filter(m, lex).len() == n + 1
}

/// The survivors the finalize stage works on: the geometric survivors, or
/// — only when their count misses — those the lexical validator confirms.
pub open spec fn spec_survivors(frags: Seq<FragModel>, lex: Seq<Seq<char>>) -> Seq<FragModel> {
    let m = spec_stage4(frags);
    let n = spec_expected(spec_is_buyer(frags)) as int;
    if m.len() == n + 1 {
        m
    } else {
        dict_filter(m, lex)
    }
}

/// The finalized output: the survivors in exact left-then-top stable
/// order; the last one is the section header, the first `expected` are the
/// values, each prefixed by the header.
pub open spec fn spec_extraction(frags: Seq<FragModel>, lex: Seq<Seq<char>>) -> ExtractionModel {
    let n = spec_expected(spec_is_buyer(frags)) as int;
    let ordered = sort_by_tol(
        sort_by_tol(spec_survivors(frags, lex), SortKey::ByLeft, 0),
        SortKey::ByTop,
        0,
    );
    ExtractionModel {
        header: ordered[n].description,
        lines: Seq::new(n as nat, |i: int| spec_line(ordered[n].description, ordered[i].description)),
        crops: Seq::new(n as nat, |i: int| spec_crop(ordered[i].bounding_poly, i)),
    }
}

/// What reconstruction returns: the finalized output when the count-check
/// gate passes, and nothing at all otherwise.
pub open spec fn reconstruct_spec(frags: Seq<FragModel>, lex: Seq<Seq<char>>) -> Option<
    ExtractionModel,
> {
    if spec_gate(frags, lex) {
        Some(spec_extraction(frags, lex))
    } else {
        None
    }
}

/// Runs the whole reconstruction pipeline over the raw fragments of one
/// identifier. Returns the transcript content and crop requests when the
/// count-check gate passes, and `None` — a legitimate "could not
/// confidently reconstruct" outcome — otherwise.
pub fn reconstruct(frags: Vec<Annotation>, lexicon: &Lexicon) -> (r: Option<Extraction>)
    ensures
        (r is Some) == spec_gate(models(frags@), lexicon@),
        r matches Some(e) ==> Some(e@) == reconstruct_spec(models(frags@), lexicon@),
        r is None ==> reconstruct_spec(models(frags@), lexicon@) is None,
        r matches Some(e) ==> e.lines@.len() == spec_expected(spec_is_buyer(models(frags@))),
{
    let ghost orig = models(frags@);
    let buyer = any_buyer(&frags);
    let levels = if buyer {
        buyer_levels_vec()
    } else {
        default_levels_vec()
    };
    proof {
        assert(forall|j: int|
            0 <= j < levels@.len() ==> -10000 <= #[trigger] levels@[j] <= 10000);
    }
    let n: usize = if buyer {
        6
    } else {
        9
    };
    let filtered = band_noise_filter(frags, &levels);
    let sorted = sort_frags(sort_frags(filtered, SortKey::ByLeft, 50), SortKey::ByTop, 50);
    let merged = merge_pass(sorted);
    let merged = column_filter_exec(merged);
    proof {
        assert(models(merged@) == spec_stage4(orig));
    }
    let survivors = if merged.len() == n + 1 {
        merged
    } else {
        dict_filter_exec(merged, lexicon)
    };
    proof {
        assert(models(survivors@) == spec_survivors(orig, lexicon@));
    }
    if survivors.len() != n + 1 {
        proof {
            assert(!spec_gate(orig, lexicon@));
        }
        return None;
    }
    let mut ordered = sort_frags(
        sort_frags(survivors, SortKey::ByLeft, 0),
        SortKey::ByTop,
        0,
    );
    let ghost om = models(ordered@);
    proof {
        lemma_sort_by_tol_len(spec_survivors(orig, lexicon@), SortKey::ByLeft, 0);
        lemma_sort_by_tol_len(
            sort_by_tol(spec_survivors(orig, lexicon@), SortKey::ByLeft, 0),
            SortKey::ByTop,
            0,
        );
        assert(om.len() == n + 1);
    }
    let header_ann = ordered.remove(n);
    let header = header_ann.description;
    proof {
        assert(models(ordered@) =~= om.take(n as int));
    }
    let mut lines: Vec<String> = Vec::new();
    let mut crops: Vec<CropRequest> = Vec::new();
    let mut i: usize = 0;
    while i < n
        invariant
            i <= n,
            om.len() == n + 1,
            ordered@.len() == n,
            models(ordered@) == om.take(n as int),
            header@ == om[n as int].description,
            lines@.len() == i,
            crops@.len() == i,
            forall|j: int|
                0 <= j < i ==> (#[trigger] lines@[j])@ == spec_line(
                    om[n as int].description,
                    om[j].description,
                ),
            forall|j: int| 0 <= j < i ==> #[trigger] crops@[j] == spec_crop(
                om[j].bounding_poly,
                j,
            ),
        decreases n - i,
    {
        proof {
            assert(models(ordered@)[i as int] == ordered@[i as int]@);
            assert(models(ordered@)[i as int] == om.take(n as int)[i as int]);
            assert(ordered@[i as int]@ == om[i as int]);
        }
        let line = header.clone().concat(" - ").concat(ordered[i].description.as_str());
        lines.push(line);
        let right = ordered[i].bounding_poly.right();
        let bottom = ordered[i].bounding_poly.bottom();
        crops.push(
            CropRequest {
                x: right as i64 - CROP_X_OFFSET,
                y: bottom as i64 - CROP_Y_OFFSET,
                width: CROP_WIDTH,
                height: CROP_HEIGHT,
                scale_percent: CROP_SCALE_PERCENT,
                index: i,
            },
        );
        i = i + 1;
    }
    let e = Extraction { header, lines, crops };
    proof {
        assert(spec_gate(orig, lexicon@));
        assert(e@ =~= spec_extraction(orig, lexicon@));
    }
    Some(e)
}

// ---------------------------------------------------------------------------
// Laws of the merge pass and of the fallback
// ---------------------------------------------------------------------------
/// Merge-pass law for a pair of ordered fragments: with top difference at
/// most 100, a gap of at most 10 merges with no separator, a gap in
/// (10, 100] merges with a single space, and anything farther apart never
/// merges.
pub proof fn lemma_merge_pass_pair(a: FragModel, b: FragModel)
    ensures
        abs_val(a.bounding_poly.spec_top() - b.bounding_poly.spec_top()) <= 100 && abs_val(
            b.bounding_poly.spec_left() - a.bounding_poly.spec_right(),
        ) <= 10 ==> coalesce_all(seq![a, b]) == seq![
            (FragModel {
                locale: a.locale,
                description: a.description + b.description,
                bounding_poly: a.bounding_poly.spec_merge(b.bounding_poly),
            }),
        ],
        abs_val(a.bounding_poly.spec_top() - b.bounding_poly.spec_top()) <= 100 && 10 < abs_val(
            b.bounding_poly.spec_left() - a.bounding_poly.spec_right(),
        ) <= 100 ==> coalesce_all(seq![a, b]) == seq![
            (FragModel {
                locale: a.locale,
                description: a.description + seq![' '] + b.description,
                bounding_poly: a.bounding_poly.spec_merge(b.bounding_poly),
            }),
        ],
        abs_val(a.bounding_poly.spec_top() - b.bounding_poly.spec_top()) > 100 || abs_val(
            b.bounding_poly.spec_left() - a.bounding_poly.spec_right(),
        ) > 100 ==> coalesce_all(seq![a, b]) == seq![a, b],
{
    let s = seq![a, b];
    assert(s.drop_first() =~= seq![b]);
    assert(seq![b].drop_first() =~= Seq::<FragModel>::empty());
    reveal_strlit(" ");
    assert(" "@ =~= seq![' ']);
    if can_merge(a, b) {
        assert(coalesce_all(s) == coalesce_from(merged_frag(a, b), seq![b].drop_first()));
        assert(coalesce_all(s) == seq![merged_frag(a, b)]);
    } else {
        assert(coalesce_all(s) == seq![a] + coalesce_from(b, seq![b].drop_first()));
        assert(seq![a] + seq![b] =~= seq![a, b]);
    }
}

/// Fallback-isolation law: when the geometric stages already yield exactly
/// the expected count, the dictionary fallback never runs — the result is
/// the same under any word list.
pub proof fn lemma_fallback_skipped(
    frags: Seq<FragModel>,
    lex1: Seq<Seq<char>>,
    lex2: Seq<Seq<char>>,
)
    requires
        spec_stage4(frags).len() == spec_expected(spec_is_buyer(frags)) as int + 1,
    ensures
        reconstruct_spec(frags, lex1) == reconstruct_spec(frags, lex2),
{
    assert(spec_survivors(frags, lex1) == spec_stage4(frags));
    assert(spec_survivors(frags, lex2) == spec_stage4(frags));
}

} // verus!
