//! Differences between two sequences of entries.

use vstd::prelude::*;
use vstd::string::*;

use crate::errors::{quote_path, quoted_path};
use crate::snapshot::entry::{entry_text, views, Entry, EntryView};
use crate::text::{join2, same_text};

verus! {

/// One difference between an earlier and a later sequence of entries.
#[derive(Debug)]
pub enum Diff {
    /// The path occurs only in the later sequence.
    Added(String),
    /// The path occurs only in the earlier sequence, or more than once in it.
    Removed(String),
    /// The path occurs in both, with entries that are not equal.
    Changed { left: Entry, right: Entry },
}

/// Mathematical value of a [`Diff`].
pub enum DiffView {
    Added(Seq<char>),
    Removed(Seq<char>),
    Changed { left: EntryView, right: EntryView },
}

impl DiffView {
    pub open spec fn path(self) -> Seq<char> {
        match self {
            DiffView::Added(path) => path,
            DiffView::Removed(path) => path,
            DiffView::Changed { left, .. } => left.path(),
        }
    }
}

impl View for Diff {
    type V = DiffView;

    open spec fn view(&self) -> DiffView {
        match self {
            Diff::Added(path) => DiffView::Added(path@),
            Diff::Removed(path) => DiffView::Removed(path@),
            Diff::Changed { left, right } => DiffView::Changed { left: left@, right: right@ },
        }
    }
}

impl DiffView {
    /// Equality of differences: the same kind and path, and for a change
    /// equal entries on both sides.
    pub open spec fn same(self, other: DiffView) -> bool {
        match (self, other) {
            (DiffView::Added(a), DiffView::Added(b)) => a == b,
            (DiffView::Removed(a), DiffView::Removed(b)) => a == b,
            (
                DiffView::Changed { left: la, right: ra },
                DiffView::Changed { left: lb, right: rb },
            ) => la.same(lb) && ra.same(rb),
            _ => false,
        }
    }
}

impl PartialEq for Diff {
    fn eq(&self, other: &Diff) -> (equal: bool) {
        match (self, other) {
            (Diff::Added(a), Diff::Added(b)) => same_text(a, b),
            (Diff::Removed(a), Diff::Removed(b)) => same_text(a, b),
            (Diff::Changed { left: la, right: ra }, Diff::Changed { left: lb, right: rb }) => {
                *la == *lb && *ra == *rb
            },
            _ => false,
        }
    }
}

impl Eq for Diff {

}

impl vstd::std_specs::cmp::PartialEqSpecImpl for Diff {
    open spec fn obeys_eq_spec() -> bool {
        true
    }

    open spec fn eq_spec(&self, other: &Diff) -> bool {
        self@.same(other@)
    }
}

/// The line that reports a difference: `+`, `-` or `!` for added, removed
/// or changed, then the path between quotes; for a change, the two entries
/// follow between square brackets.
pub open spec fn diff_line(diff: DiffView) -> Seq<char> {
    match diff {
        DiffView::Added(path) => "+ "@ + quoted_path(path),
        DiffView::Removed(path) => "- "@ + quoted_path(path),
        DiffView::Changed { left, right } => "! "@ + quoted_path(left.path()) + " ["@
            + entry_text(left) + " != "@ + entry_text(right) + "]"@,
    }
}

impl Diff {
    /// The line that reports the difference.
    pub fn to_string(&self) -> (line: String)
        ensures
            line@ == diff_line(self@),
    {
        let quoted = quote_path(self.as_path());
        match self {
            Diff::Added(_) => join2("+ ", quoted.as_str()),
            Diff::Removed(_) => join2("- ", quoted.as_str()),
            Diff::Changed { left, right } => {
                let mut line = join2("! ", quoted.as_str());
                line.append(" [");
                line.append(left.describe().as_str());
                line.append(" != ");
                line.append(right.describe().as_str());
                line.append("]");
                line
            },
        }
    }

    /// The path that the difference is about.
    pub fn as_path(&self) -> (path: &str)
        ensures
            path@ == self@.path(),
    {
        match self {
            Diff::Added(path) => path.as_str(),
            Diff::Removed(path) => path.as_str(),
            Diff::Changed { left, .. } => left.as_path(),
        }
    }
}

/// The views of a sequence of differences, in the same order.
pub open spec fn diff_views(diffs: Seq<Diff>) -> Seq<DiffView> {
    diffs.map_values(|d: Diff| d@)
}

/// Some entry of `entries` has this path.
pub open spec fn has_path(entries: Seq<EntryView>, path: Seq<char>) -> bool {
    exists|i: int| 0 <= i < entries.len() && (#[trigger] entries[i]).path() == path
}

/// At least two entries of `entries` have this path.
pub open spec fn twice(entries: Seq<EntryView>, path: Seq<char>) -> bool {
    exists|i: int, j: int|
        0 <= i < j < entries.len() && (#[trigger] entries[i]).path() == path && (
        #[trigger] entries[j]).path() == path
}

/// No two entries of `entries` have the same path.
pub open spec fn distinct_paths(entries: Seq<EntryView>) -> bool {
    forall|i: int, j: int|
        0 <= i < j < entries.len() ==> (#[trigger] entries[i]).path() != (
        #[trigger] entries[j]).path()
}

/// No entry before position `i` has the path of the entry at `i`.
pub open spec fn first_at(entries: Seq<EntryView>, i: int) -> bool {
    forall|j: int| 0 <= j < i ==> (#[trigger] entries[j]).path() != entries[i].path()
}

/// No entry after position `k` has the path of the entry at `k`.
pub open spec fn last_at(entries: Seq<EntryView>, k: int) -> bool {
    forall|j: int| k < j < entries.len() ==> (#[trigger] entries[j]).path() != entries[k].path()
}

/// `path` is reported as removed: it occurs on the left, and either not on
/// the right or more than once on the left (a later sequence holds one entry
/// for a path, so a second one on the left finds none to be compared with).
pub open spec fn removed(left: Seq<EntryView>, right: Seq<EntryView>, path: Seq<char>) -> bool {
    has_path(left, path) && (!has_path(right, path) || twice(left, path))
}

/// `path` is reported as added: it occurs on the right and not on the left.
pub open spec fn added(left: Seq<EntryView>, right: Seq<EntryView>, path: Seq<char>) -> bool {
    has_path(right, path) && !has_path(left, path)
}

/// The pair is reported as changed: `l` is the first entry of its path on the
/// left, `r` the last entry of that path on the right, and the two are not equal.
pub open spec fn changed(
    left: Seq<EntryView>,
    right: Seq<EntryView>,
    l: EntryView,
    r: EntryView,
) -> bool {
    exists|i: int, k: int|
        0 <= i < left.len() && 0 <= k < right.len() && #[trigger] left[i] == l
            && #[trigger] right[k] == r && first_at(left, i) && last_at(right, k) && l.path()
            == r.path() && !l.same(r)
}

/// The differences between `left` and `right`, as a set.
pub open spec fn diff_set(left: Seq<EntryView>, right: Seq<EntryView>) -> Set<DiffView> {
    Set::new(
        |d: DiffView|
            match d {
                DiffView::Added(path) => added(left, right, path),
                DiffView::Removed(path) => removed(left, right, path),
                DiffView::Changed { left: l, right: r } => changed(left, right, l, r),
            },
    )
}

/// How many of the first `upto` entries have this path.
pub open spec fn occurrences(entries: Seq<EntryView>, path: Seq<char>, upto: int) -> nat
    decreases upto,
{
    if upto <= 0 {
        0
    } else {
        occurrences(entries, path, upto - 1) + if entries[upto - 1].path() == path {
            1nat
        } else {
            0nat
        }
    }
}

/// Position of the last of the first `upto` entries that has this path, or -1.
pub open spec fn last_match(entries: Seq<EntryView>, path: Seq<char>, upto: int) -> int
    decreases upto,
{
    if upto <= 0 {
        -1
    } else if entries[upto - 1].path() == path {
        upto - 1
    } else {
        last_match(entries, path, upto - 1)
    }
}

/// What the entry at position `i` of `left` adds to the differences.
pub open spec fn left_part(left: Seq<EntryView>, right: Seq<EntryView>, i: int) -> Option<
    DiffView,
> {
    let path = left[i].path();
    let before = occurrences(left, path, i);
    let k = last_match(right, path, right.len() as int);
    if k >= 0 {
        if before == 0 {
            if left[i].same(right[k]) {
                None
            } else {
                Some(DiffView::Changed { left: left[i], right: right[k] })
            }
        } else if before == 1 {
            Some(DiffView::Removed(path))
        } else {
            None
        }
    } else if before == 0 {
        Some(DiffView::Removed(path))
    } else {
        None
    }
}

/// What the entry at position `k` of `right` adds to the differences.
pub open spec fn right_part(left: Seq<EntryView>, right: Seq<EntryView>, k: int) -> Option<
    DiffView,
> {
    let path = right[k].path();
    if occurrences(right, path, k) == 0 && last_match(left, path, left.len() as int) < 0 {
        Some(DiffView::Added(path))
    } else {
        None
    }
}

/// The differences that the first `n` entries of `left` add, in order.
pub open spec fn collect_left(left: Seq<EntryView>, right: Seq<EntryView>, n: int) -> Seq<
    DiffView,
>
    decreases n,
{
    if n <= 0 {
        Seq::empty()
    } else {
        match left_part(left, right, n - 1) {
            Some(d) => collect_left(left, right, n - 1).push(d),
            None => collect_left(left, right, n - 1),
        }
    }
}

/// The differences that the first `n` entries of `right` add, in order.
pub open spec fn collect_right(left: Seq<EntryView>, right: Seq<EntryView>, n: int) -> Seq<
    DiffView,
>
    decreases n,
{
    if n <= 0 {
        Seq::empty()
    } else {
        match right_part(left, right, n - 1) {
            Some(d) => collect_right(left, right, n - 1).push(d),
            None => collect_right(left, right, n - 1),
        }
    }
}

/// The differences in the order in which [`diff`] lists them.
pub open spec fn diff_seq(left: Seq<EntryView>, right: Seq<EntryView>) -> Seq<DiffView> {
    collect_left(left, right, left.len() as int) + collect_right(left, right, right.len() as int)
}


proof fn lemma_occurrences_zero(entries: Seq<EntryView>, path: Seq<char>, n: int)
    requires
        0 <= n <= entries.len(),
    ensures
        occurrences(entries, path, n) == 0 <==> forall|j: int|
            0 <= j < n ==> (#[trigger] entries[j]).path() != path,
    decreases n,
{
    if n > 0 {
        lemma_occurrences_zero(entries, path, n - 1);
        if occurrences(entries, path, n) == 0 {
            assert forall|j: int| 0 <= j < n implies (#[trigger] entries[j]).path() != path by {
                if j < n - 1 {
                } else {
                    assert(entries[n - 1].path() != path);
                }
            }
        } else {
            if entries[n - 1].path() == path {
            } else {
                assert(occurrences(entries, path, n - 1) != 0);
            }
        }
    }
}

proof fn lemma_occurrences_grow(entries: Seq<EntryView>, path: Seq<char>, a: int, b: int)
    requires
        0 <= a <= b <= entries.len(),
    ensures
        occurrences(entries, path, a) <= occurrences(entries, path, b),
        a < b && entries[a].path() == path ==> occurrences(entries, path, a) < occurrences(
            entries,
            path,
            b,
        ),
    decreases b - a,
{
    if a < b {
        lemma_occurrences_grow(entries, path, a, b - 1);
    }
}

/// Below a count that exceeds `c` there is an entry of this path with
/// exactly `c` entries of the path before it.
proof fn lemma_occurrences_witness(entries: Seq<EntryView>, path: Seq<char>, n: int, c: nat) -> (i:
    int)
    requires
        0 <= n <= entries.len(),
        occurrences(entries, path, n) > c,
    ensures
        0 <= i < n,
        entries[i].path() == path,
        occurrences(entries, path, i) == c,
    decreases n,
{
    if entries[n - 1].path() == path && occurrences(entries, path, n - 1) == c {
        n - 1
    } else {
        lemma_occurrences_witness(entries, path, n - 1, c)
    }
}

proof fn lemma_last_match(entries: Seq<EntryView>, path: Seq<char>, n: int)
    requires
        0 <= n <= entries.len(),
    ensures
        -1 <= last_match(entries, path, n) < n,
        last_match(entries, path, n) >= 0 ==> entries[last_match(entries, path, n)].path() == path,
        forall|j: int|
            last_match(entries, path, n) < j < n ==> (#[trigger] entries[j]).path() != path,
    decreases n,
{
    if n > 0 {
        lemma_last_match(entries, path, n - 1);
    }
}

proof fn lemma_last_match_none(entries: Seq<EntryView>, path: Seq<char>)
    ensures
        last_match(entries, path, entries.len() as int) < 0 <==> !has_path(entries, path),
{
    lemma_last_match(entries, path, entries.len() as int);
    let k = last_match(entries, path, entries.len() as int);
    if k >= 0 {
        assert(entries[k].path() == path);
    }
}

proof fn lemma_collect_left(left: Seq<EntryView>, right: Seq<EntryView>, n: int, d: DiffView)
    requires
        0 <= n <= left.len(),
    ensures
        collect_left(left, right, n).contains(d) <==> exists|i: int|
            0 <= i < n && #[trigger] left_part(left, right, i) == Some(d),
    decreases n,
{
    if n > 0 {
        lemma_collect_left(left, right, n - 1, d);
        let rest = collect_left(left, right, n - 1);
        match left_part(left, right, n - 1) {
            Some(e) => {
                let all = rest.push(e);
                if all.contains(d) {
                    let x = choose|x: int| 0 <= x < all.len() && all[x] == d;
                    if x < rest.len() {
                        assert(rest[x] == d);
                        assert(rest.contains(d));
                    } else {
                        assert(left_part(left, right, n - 1) == Some(d));
                    }
                }
                if exists|i: int| 0 <= i < n && #[trigger] left_part(left, right, i) == Some(d) {
                    let i = choose|i: int|
                        0 <= i < n && #[trigger] left_part(left, right, i) == Some(d);
                    if i < n - 1 {
                        let x = choose|x: int| 0 <= x < rest.len() && rest[x] == d;
                        assert(all[x] == d);
                    } else {
                        assert(all[rest.len() as int] == d);
                    }
                }
            },
            None => {
                if exists|i: int| 0 <= i < n && #[trigger] left_part(left, right, i) == Some(d) {
                    let i = choose|i: int|
                        0 <= i < n && #[trigger] left_part(left, right, i) == Some(d);
                    assert(i < n - 1);
                }
            },
        }
    }
}

proof fn lemma_collect_right(left: Seq<EntryView>, right: Seq<EntryView>, n: int, d: DiffView)
    requires
        0 <= n <= right.len(),
    ensures
        collect_right(left, right, n).contains(d) <==> exists|k: int|
            0 <= k < n && #[trigger] right_part(left, right, k) == Some(d),
    decreases n,
{
    if n > 0 {
        lemma_collect_right(left, right, n - 1, d);
        let rest = collect_right(left, right, n - 1);
        match right_part(left, right, n - 1) {
            Some(e) => {
                let all = rest.push(e);
                if all.contains(d) {
                    let x = choose|x: int| 0 <= x < all.len() && all[x] == d;
                    if x < rest.len() {
                        assert(rest[x] == d);
                        assert(rest.contains(d));
                    } else {
                        assert(right_part(left, right, n - 1) == Some(d));
                    }
                }
                if exists|k: int| 0 <= k < n && #[trigger] right_part(left, right, k) == Some(d) {
                    let k = choose|k: int|
                        0 <= k < n && #[trigger] right_part(left, right, k) == Some(d);
                    if k < n - 1 {
                        let x = choose|x: int| 0 <= x < rest.len() && rest[x] == d;
                        assert(all[x] == d);
                    } else {
                        assert(all[rest.len() as int] == d);
                    }
                }
            },
            None => {
                if exists|k: int| 0 <= k < n && #[trigger] right_part(left, right, k) == Some(d) {
                    let k = choose|k: int|
                        0 <= k < n && #[trigger] right_part(left, right, k) == Some(d);
                    assert(k < n - 1);
                }
            },
        }
    }
}


/// The listed differences are exactly the members of the set of differences.
pub proof fn lemma_diff_seq_is_diff_set(left: Seq<EntryView>, right: Seq<EntryView>)
    ensures
        diff_seq(left, right).to_set() == diff_set(left, right),
{
    let seq = diff_seq(left, right);
    let ls = collect_left(left, right, left.len() as int);
    let rs = collect_right(left, right, right.len() as int);
    assert forall|d: DiffView| seq.contains(d) <==> diff_set(left, right).contains(d) by {
        lemma_collect_left(left, right, left.len() as int, d);
        lemma_collect_right(left, right, right.len() as int, d);
        assert(seq.contains(d) <==> ls.contains(d) || rs.contains(d)) by {
            if seq.contains(d) {
                let x = choose|x: int| 0 <= x < seq.len() && seq[x] == d;
                if x < ls.len() {
                    assert(ls[x] == d);
                } else {
                    assert(rs[x - ls.len()] == d);
                }
            }
            if ls.contains(d) {
                let x = choose|x: int| 0 <= x < ls.len() && ls[x] == d;
                assert(seq[x] == d);
            }
            if rs.contains(d) {
                let x = choose|x: int| 0 <= x < rs.len() && rs[x] == d;
                assert(seq[ls.len() + x] == d);
            }
        }
        let p = d.path();
        lemma_last_match_none(right, p);
        lemma_last_match_none(left, p);
        lemma_last_match(right, p, right.len() as int);
        let km = last_match(right, p, right.len() as int);
        if seq.contains(d) {
            if ls.contains(d) {
                let i = choose|i: int|
                    0 <= i < left.len() && #[trigger] left_part(left, right, i) == Some(d);
                assert(left[i].path() == p);
                lemma_occurrences_zero(left, p, i);
                match d {
                    DiffView::Removed(_) => {
                        if km >= 0 {
                            let j = lemma_occurrences_witness(left, p, i, 0);
                            assert(left[j].path() == p && left[i].path() == p);
                        }
                    },
                    DiffView::Changed { left: l, right: r } => {
                        assert(left[i] == l && right[km] == r);
                        assert(first_at(left, i));
                        assert(last_at(right, km));
                    },
                    DiffView::Added(_) => {},
                }
            } else {
                let k = choose|k: int|
                    0 <= k < right.len() && #[trigger] right_part(left, right, k) == Some(d);
                assert(right[k].path() == p);
            }
        }
        if diff_set(left, right).contains(d) {
            match d {
                DiffView::Removed(_) => {
                    let a = choose|a: int| 0 <= a < left.len() && (#[trigger] left[a]).path() == p;
                    if !has_path(right, p) {
                        lemma_occurrences_grow(left, p, a, a + 1);
                        let i = lemma_occurrences_witness(left, p, a + 1, 0);
                        assert(left_part(left, right, i) == Some(d));
                    } else {
                        let (a, b) = choose|a: int, b: int|
                            0 <= a < b < left.len() && (#[trigger] left[a]).path() == p && (
                            #[trigger] left[b]).path() == p;
                        lemma_occurrences_grow(left, p, a, b);
                        lemma_occurrences_grow(left, p, b, b + 1);
                        let i = lemma_occurrences_witness(left, p, b + 1, 1);
                        assert(left_part(left, right, i) == Some(d));
                    }
                },
                DiffView::Added(_) => {
                    let a = choose|a: int|
                        0 <= a < right.len() && (#[trigger] right[a]).path() == p;
                    lemma_occurrences_grow(right, p, a, a + 1);
                    let k = lemma_occurrences_witness(right, p, a + 1, 0);
                    assert(right_part(left, right, k) == Some(d));
                },
                DiffView::Changed { left: l, right: r } => {
                    let (i, k) = choose|i: int, k: int|
                        0 <= i < left.len() && 0 <= k < right.len() && #[trigger] left[i] == l
                            && #[trigger] right[k] == r && first_at(left, i) && last_at(right, k)
                            && l.path() == r.path() && !l.same(r);
                    lemma_occurrences_zero(left, p, i);
                    if km < k {
                        assert(right[k].path() != p);
                    }
                    if k < km {
                        assert(right[km].path() != right[k].path());
                    }
                    assert(left_part(left, right, i) == Some(d));
                },
            }
        }
    }
    assert(seq.to_set() =~= diff_set(left, right));
}

proof fn lemma_left_part_once(left: Seq<EntryView>, right: Seq<EntryView>, i: int, j: int)
    requires
        0 <= i < j < left.len(),
        left_part(left, right, i) is Some,
    ensures
        left_part(left, right, i) != left_part(left, right, j),
{
    if left_part(left, right, i) == left_part(left, right, j) {
        let d = left_part(left, right, i)->Some_0;
        let p = d.path();
        assert(left[i].path() == p && left[j].path() == p);
        lemma_occurrences_grow(left, p, i, j);
    }
}

proof fn lemma_right_part_once(left: Seq<EntryView>, right: Seq<EntryView>, i: int, j: int)
    requires
        0 <= i < j < right.len(),
        right_part(left, right, i) is Some,
    ensures
        right_part(left, right, i) != right_part(left, right, j),
{
    if right_part(left, right, i) == right_part(left, right, j) {
        let p = right[i].path();
        lemma_occurrences_grow(right, p, i, j);
    }
}

proof fn lemma_collect_left_distinct(left: Seq<EntryView>, right: Seq<EntryView>, n: int)
    requires
        0 <= n <= left.len(),
    ensures
        collect_left(left, right, n).no_duplicates(),
    decreases n,
{
    if n > 0 {
        lemma_collect_left_distinct(left, right, n - 1);
        let rest = collect_left(left, right, n - 1);
        match left_part(left, right, n - 1) {
            Some(d) => {
                lemma_collect_left(left, right, n - 1, d);
                if rest.contains(d) {
                    let i = choose|i: int|
                        0 <= i < n - 1 && #[trigger] left_part(left, right, i) == Some(d);
                    lemma_left_part_once(left, right, i, n - 1);
                }
                assert forall|x: int, y: int|
                    0 <= x < y < rest.push(d).len() implies rest.push(d)[x] != rest.push(d)[y] by {
                    if y == rest.len() {
                        assert(rest[x] == rest.push(d)[x]);
                        if rest[x] == d {
                            assert(rest.contains(d));
                        }
                    }
                }
            },
            None => {},
        }
    }
}

proof fn lemma_collect_right_distinct(left: Seq<EntryView>, right: Seq<EntryView>, n: int)
    requires
        0 <= n <= right.len(),
    ensures
        collect_right(left, right, n).no_duplicates(),
    decreases n,
{
    if n > 0 {
        lemma_collect_right_distinct(left, right, n - 1);
        let rest = collect_right(left, right, n - 1);
        match right_part(left, right, n - 1) {
            Some(d) => {
                lemma_collect_right(left, right, n - 1, d);
                if rest.contains(d) {
                    let i = choose|i: int|
                        0 <= i < n - 1 && #[trigger] right_part(left, right, i) == Some(d);
                    lemma_right_part_once(left, right, i, n - 1);
                }
                assert forall|x: int, y: int|
                    0 <= x < y < rest.push(d).len() implies rest.push(d)[x] != rest.push(d)[y] by {
                    if y == rest.len() {
                        assert(rest[x] == rest.push(d)[x]);
                        if rest[x] == d {
                            assert(rest.contains(d));
                        }
                    }
                }
            },
            None => {},
        }
    }
}

/// No difference is listed twice.
pub proof fn lemma_diff_seq_distinct(left: Seq<EntryView>, right: Seq<EntryView>)
    ensures
        diff_seq(left, right).no_duplicates(),
{
    let ls = collect_left(left, right, left.len() as int);
    let rs = collect_right(left, right, right.len() as int);
    lemma_collect_left_distinct(left, right, left.len() as int);
    lemma_collect_right_distinct(left, right, right.len() as int);
    let seq = ls + rs;
    assert forall|x: int, y: int| 0 <= x < y < seq.len() implies seq[x] != seq[y] by {
        if x < ls.len() && y >= ls.len() {
            let d = seq[x];
            assert(ls[x] == d);
            assert(rs[y - ls.len()] == seq[y]);
            if seq[y] == d {
                assert(ls.contains(d));
                assert(rs.contains(d));
                lemma_collect_left(left, right, left.len() as int, d);
                lemma_collect_right(left, right, right.len() as int, d);
            }
        } else if y < ls.len() {
            assert(ls[x] == seq[x] && ls[y] == seq[y]);
        } else {
            assert(rs[x - ls.len()] == seq[x] && rs[y - ls.len()] == seq[y]);
        }
    }
}

/// How many of the entries before position `i` have the path of the entry at `i`.
fn count_before(entries: &[Entry], i: usize) -> (count: usize)
    requires
        i < entries@.len(),
    ensures
        count == occurrences(views(entries@), entries@[i as int]@.path(), i as int),
{
    let path = entries[i].path_string();
    let mut count: usize = 0;
    let mut j: usize = 0;
    while j < i
        invariant
            j <= i < entries@.len(),
            path@ == entries@[i as int]@.path(),
            count <= j,
            count == occurrences(views(entries@), path@, j as int),
        decreases i - j,
    {
        if same_text(entries[j].path_string(), path) {
            count += 1;
        }
        j += 1;
    }
    count
}

/// Position of the last entry that has this path.
fn find_last(entries: &[Entry], path: &String) -> (found: Option<usize>)
    ensures
        match found {
            Some(k) => k == last_match(views(entries@), path@, entries@.len() as int),
            None => last_match(views(entries@), path@, entries@.len() as int) == -1,
        },
{
    let mut found: Option<usize> = None;
    let mut j: usize = 0;
    while j < entries.len()
        invariant
            j <= entries@.len(),
            match found {
                Some(k) => k == last_match(views(entries@), path@, j as int),
                None => last_match(views(entries@), path@, j as int) == -1,
            },
        decreases entries@.len() - j,
    {
        if same_text(entries[j].path_string(), path) {
            found = Some(j);
        }
        j += 1;
    }
    found
}

/// The differences between an earlier sequence of entries, `left`, and a
/// later one, `right`. Entries are matched by path: of several entries with
/// one path, the first on the left is compared with the last on the right.
pub fn diff(left: &[Entry], right: &[Entry]) -> (differences: Vec<Diff>)
    ensures
        diff_views(differences@).no_duplicates(),
        diff_views(differences@).to_set() == diff_set(views(left@), views(right@)),
        diff_views(differences@) == diff_seq(views(left@), views(right@)),
        differences@.len() == diff_set(views(left@), views(right@)).len(),
{
    let ghost lv = views(left@);
    let ghost rv = views(right@);
    let mut differences: Vec<Diff> = Vec::new();
    let mut i: usize = 0;
    while i < left.len()
        invariant
            i <= left@.len(),
            lv == views(left@),
            rv == views(right@),
            diff_views(differences@) =~= collect_left(lv, rv, i as int),
        decreases left@.len() - i,
    {
        let entry = &left[i];
        let before = count_before(left, i);
        let found = find_last(right, entry.path_string());
        let ghost old_views = diff_views(differences@);
        match found {
            Some(k) => {
                proof {
                    lemma_last_match(rv, entry@.path(), rv.len() as int);
                }
                let other = &right[k];
                if before == 0 {
                    if !(*entry == *other) {
                        differences.push(Diff::Changed { left: entry.clone(), right: other.clone() });
                    }
                } else if before == 1 {
                    differences.push(Diff::Removed(entry.path_string().clone()));
                }
            },
            None => {
                if before == 0 {
                    differences.push(Diff::Removed(entry.path_string().clone()));
                }
            },
        }
        assert(diff_views(differences@) =~= match left_part(lv, rv, i as int) {
            Some(d) => old_views.push(d),
            None => old_views,
        });
        i += 1;
    }
    let ghost from_left = diff_views(differences@);
    let mut k: usize = 0;
    while k < right.len()
        invariant
            k <= right@.len(),
            lv == views(left@),
            rv == views(right@),
            from_left == collect_left(lv, rv, lv.len() as int),
            diff_views(differences@) =~= from_left + collect_right(lv, rv, k as int),
        decreases right@.len() - k,
    {
        let entry = &right[k];
        let before = count_before(right, k);
        let ghost old_views = diff_views(differences@);
        if before == 0 {
            let found = find_last(left, entry.path_string());
            if found.is_none() {
                differences.push(Diff::Added(entry.path_string().clone()));
            }
        }
        assert(diff_views(differences@) =~= match right_part(lv, rv, k as int) {
            Some(d) => old_views.push(d),
            None => old_views,
        });
        k += 1;
    }
    proof {
        lemma_diff_seq_is_diff_set(lv, rv);
        lemma_diff_seq_distinct(lv, rv);
        diff_seq(lv, rv).unique_seq_to_set();
    }
    differences
}


/// The paths that occur in `entries`.
pub open spec fn path_set(entries: Seq<EntryView>) -> Set<Seq<char>> {
    Set::new(|path: Seq<char>| has_path(entries, path))
}

/// The paths that occur on both sides with entries that are not equal.
pub open spec fn changed_paths(left: Seq<EntryView>, right: Seq<EntryView>) -> Set<Seq<char>> {
    Set::new(
        |path: Seq<char>|
            exists|i: int, k: int|
                0 <= i < left.len() && 0 <= k < right.len() && (#[trigger] left[i]).path() == path
                    && (#[trigger] right[k]).path() == path && !left[i].same(right[k]),
    )
}

/// An entry of `entries` that has this path.
pub open spec fn entry_at(entries: Seq<EntryView>, path: Seq<char>) -> EntryView {
    entries[choose|i: int| 0 <= i < entries.len() && (#[trigger] entries[i]).path() == path]
}

proof fn lemma_path_set_finite(entries: Seq<EntryView>)
    ensures
        path_set(entries).finite(),
{
    let paths = entries.map_values(|e: EntryView| e.path());
    vstd::seq_lib::seq_to_set_is_finite(paths);
    assert forall|p: Seq<char>| path_set(entries).contains(p) <==> paths.to_set().contains(p) by {
        if path_set(entries).contains(p) {
            let i = choose|i: int| 0 <= i < entries.len() && (#[trigger] entries[i]).path() == p;
            assert(paths[i] == p);
        }
        if paths.to_set().contains(p) {
            let i = choose|i: int| 0 <= i < paths.len() && paths[i] == p;
            assert(entries[i].path() == p);
        }
    }
    assert(path_set(entries) =~= paths.to_set());
}

/// Comparing a sequence of entries with itself finds no difference, provided
/// that no path occurs twice in it.
pub proof fn lemma_diff_of_same_is_empty(entries: Seq<EntryView>)
    requires
        distinct_paths(entries),
    ensures
        diff_set(entries, entries) == Set::<DiffView>::empty(),
        diff_seq(entries, entries).len() == 0,
{
    assert forall|d: DiffView| !diff_set(entries, entries).contains(d) by {
        match d {
            DiffView::Removed(p) => {},
            DiffView::Added(p) => {},
            DiffView::Changed { left: l, right: r } => {
                if changed(entries, entries, l, r) {
                    let (i, k) = choose|i: int, k: int|
                        0 <= i < entries.len() && 0 <= k < entries.len() && #[trigger] entries[i]
                            == l && #[trigger] entries[k] == r && first_at(entries, i) && last_at(
                            entries,
                            k,
                        ) && l.path() == r.path() && !l.same(r);
                    assert(i == k);
                }
            },
        }
    }
    assert(diff_set(entries, entries) =~= Set::<DiffView>::empty());
    lemma_diff_seq_is_diff_set(entries, entries);
    let seq = diff_seq(entries, entries);
    if seq.len() > 0 {
        assert(seq.to_set().contains(seq[0]));
    }
}

/// The number of differences: the paths that occur on one side only, plus the
/// paths whose entries differ, provided that no path occurs twice on a side.
pub proof fn lemma_diff_count(left: Seq<EntryView>, right: Seq<EntryView>)
    requires
        distinct_paths(left),
        distinct_paths(right),
    ensures
        diff_set(left, right).finite(),
        path_set(left).finite(),
        path_set(right).finite(),
        changed_paths(left, right).finite(),
        diff_set(left, right).len() == path_set(left).difference(path_set(right)).len() + path_set(
            right,
        ).difference(path_set(left)).len() + changed_paths(left, right).len(),
        diff_seq(left, right).len() == diff_set(left, right).len(),
{
    broadcast use vstd::set_lib::group_set_properties;

    lemma_path_set_finite(left);
    lemma_path_set_finite(right);
    let only_left = path_set(left).difference(path_set(right));
    let only_right = path_set(right).difference(path_set(left));
    let both = changed_paths(left, right);
    assert(both.subset_of(path_set(left))) by {
        assert forall|p: Seq<char>| both.contains(p) implies path_set(left).contains(p) by {
            let (i, k) = choose|i: int, k: int|
                0 <= i < left.len() && 0 <= k < right.len() && (#[trigger] left[i]).path() == p && (
                #[trigger] right[k]).path() == p && !left[i].same(right[k]);
            assert(left[i].path() == p);
        }
    }
    vstd::set_lib::lemma_set_subset_finite(path_set(left), both);
    let fr = |p: Seq<char>| DiffView::Removed(p);
    let fa = |p: Seq<char>| DiffView::Added(p);
    let fc = |p: Seq<char>|
        DiffView::Changed { left: entry_at(left, p), right: entry_at(right, p) };
    let sr = only_left.map(fr);
    let sa = only_right.map(fa);
    let sc = both.map(fc);
    assert(vstd::relations::injective_on(fr, only_left));
    assert(vstd::relations::injective_on(fa, only_right));
    assert(vstd::relations::injective_on(fc, both)) by {
        assert forall|p: Seq<char>, q: Seq<char>|
            both.contains(p) && both.contains(q) && fc(p) == fc(q) implies p == q by {
            let (i, k) = choose|i: int, k: int|
                0 <= i < left.len() && 0 <= k < right.len() && (#[trigger] left[i]).path() == p && (
                #[trigger] right[k]).path() == p && !left[i].same(right[k]);
            let (j, m) = choose|i: int, k: int|
                0 <= i < left.len() && 0 <= k < right.len() && (#[trigger] left[i]).path() == q && (
                #[trigger] right[k]).path() == q && !left[i].same(right[k]);
            assert(left[i].path() == p);
            assert(left[j].path() == q);
            assert(entry_at(left, p).path() == p);
            assert(entry_at(left, q).path() == q);
        }
    }
    vstd::set_lib::lemma_map_size(only_left, sr, fr);
    vstd::set_lib::lemma_map_size(only_right, sa, fa);
    vstd::set_lib::lemma_map_size(both, sc, fc);
    assert forall|d: DiffView| diff_set(left, right).contains(d) <==> (sr + sa + sc).contains(
        d,
    ) by {
        match d {
            DiffView::Removed(p) => {
                if removed(left, right, p) {
                    assert(only_left.contains(p));
                    assert(fr(p) == d);
                }
                if sr.contains(d) {
                    let q = choose|q: Seq<char>| only_left.contains(q) && fr(q) == d;
                    assert(q == p);
                }
            },
            DiffView::Added(p) => {
                if added(left, right, p) {
                    assert(only_right.contains(p));
                    assert(fa(p) == d);
                }
                if sa.contains(d) {
                    let q = choose|q: Seq<char>| only_right.contains(q) && fa(q) == d;
                    assert(q == p);
                }
            },
            DiffView::Changed { left: l, right: r } => {
                if changed(left, right, l, r) {
                    let (i, k) = choose|i: int, k: int|
                        0 <= i < left.len() && 0 <= k < right.len() && #[trigger] left[i] == l
                            && #[trigger] right[k] == r && first_at(left, i) && last_at(right, k)
                            && l.path() == r.path() && !l.same(r);
                    let p = l.path();
                    assert(left[i].path() == p && right[k].path() == p);
                    assert(both.contains(p));
                    assert(entry_at(left, p).path() == p);
                    assert(entry_at(right, p).path() == p);
                    assert(entry_at(left, p) == l);
                    assert(entry_at(right, p) == r);
                    assert(fc(p) == d);
                }
                if sc.contains(d) {
                    let p = choose|q: Seq<char>| both.contains(q) && fc(q) == d;
                    let (i, k) = choose|i: int, k: int|
                        0 <= i < left.len() && 0 <= k < right.len() && (#[trigger] left[i]).path()
                            == p && (#[trigger] right[k]).path() == p && !left[i].same(right[k]);
                    assert(left[i].path() == p);
                    assert(right[k].path() == p);
                    assert(entry_at(left, p).path() == p);
                    assert(entry_at(right, p).path() == p);
                    assert(entry_at(left, p) == left[i]);
                    assert(entry_at(right, p) == right[k]);
                    assert(first_at(left, i));
                    assert(last_at(right, k));
                }
            },
        }
    }
    assert(diff_set(left, right) =~= sr + sa + sc);
    assert(sr.disjoint(sa));
    assert((sr + sa).disjoint(sc));
    vstd::set_lib::lemma_set_disjoint_lens(sr, sa);
    vstd::set_lib::lemma_set_disjoint_lens(sr + sa, sc);
    lemma_diff_seq_is_diff_set(left, right);
    lemma_diff_seq_distinct(left, right);
    diff_seq(left, right).unique_seq_to_set();
}


/// Some entry of `entries` is equal to `entry`.
pub open spec fn has_same(entries: Seq<EntryView>, entry: EntryView) -> bool {
    exists|j: int| 0 <= j < entries.len() && entry.same(#[trigger] entries[j])
}

/// The two sequences hold the same entries, in whatever order: each entry
/// of one is equal to an entry of the other. Timestamps may differ.
pub open spec fn unchanged(left: Seq<EntryView>, right: Seq<EntryView>) -> bool {
    &&& forall|i: int| 0 <= i < left.len() ==> has_same(right, #[trigger] left[i])
    &&& forall|j: int| 0 <= j < right.len() ==> has_same(left, #[trigger] right[j])
}

/// A tree that has not changed shows no difference: where the later
/// sequence holds the same entries as the earlier one, in whatever order
/// and with whatever timestamps, and no path occurs twice on a side, there
/// is nothing added, removed or changed.
pub proof fn lemma_diff_of_unchanged_is_empty(left: Seq<EntryView>, right: Seq<EntryView>)
    requires
        distinct_paths(left),
        distinct_paths(right),
        unchanged(left, right),
    ensures
        diff_set(left, right) == Set::<DiffView>::empty(),
        diff_set(left, right).len() == 0,
        diff_seq(left, right).len() == 0,
{
    assert forall|d: DiffView| !diff_set(left, right).contains(d) by {
        match d {
            DiffView::Removed(p) => {
                if removed(left, right, p) {
                    let i = choose|i: int| 0 <= i < left.len() && (#[trigger] left[i]).path() == p;
                    assert(has_same(right, left[i]));
                    let j = choose|j: int| 0 <= j < right.len() && left[i].same(#[trigger] right[j]);
                    assert(right[j].path() == p);
                }
            },
            DiffView::Added(p) => {
                if added(left, right, p) {
                    let j = choose|j: int|
                        0 <= j < right.len() && (#[trigger] right[j]).path() == p;
                    assert(has_same(left, right[j]));
                    let i = choose|i: int| 0 <= i < left.len() && right[j].same(#[trigger] left[i]);
                    assert(left[i].path() == p);
                }
            },
            DiffView::Changed { left: l, right: r } => {
                if changed(left, right, l, r) {
                    let (i, k) = choose|i: int, k: int|
                        0 <= i < left.len() && 0 <= k < right.len() && #[trigger] left[i] == l
                            && #[trigger] right[k] == r && first_at(left, i) && last_at(right, k)
                            && l.path() == r.path() && !l.same(r);
                    assert(has_same(right, left[i]));
                    let j = choose|j: int| 0 <= j < right.len() && left[i].same(#[trigger] right[j]);
                    assert(right[j].path() == right[k].path());
                    assert(j == k);
                }
            },
        }
    }
    assert(diff_set(left, right) =~= Set::<DiffView>::empty());
    lemma_diff_seq_is_diff_set(left, right);
    let seq = diff_seq(left, right);
    if seq.len() > 0 {
        assert(seq.to_set().contains(seq[0]));
    }
}

} // verus!
