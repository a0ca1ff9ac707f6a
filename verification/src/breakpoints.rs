//! The breakpoint index: breakpoints keyed by file path and line.
//!
//! The index lists its entries in one fixed order: by path, in the order of
//! `str`, and for one path by ascending line. No two entries share a path
//! and a line.

use vstd::prelude::*;
use crate::navigation::{one_based, to_one_based, JumpPosition, JumpTarget, JumpTargetView};
use crate::paths::{
    display_path, file_name_or_empty, folder_or_empty, path_file_name, path_parent, shown_path,
    slice_text_of, text_or_empty,
};
use crate::text_order::{
    lemma_bytes_asymmetric, lemma_bytes_irreflexive, lemma_bytes_transitive, order_text,
    text_precedes, TextOrder,
};
use vstd::utf8::encode_utf8;
use crate::seq_facts::{
    lemma_filter_drops_all, lemma_filter_drops_one, lemma_filter_keeps_all, lemma_filter_split,
};

verus! {

/// A breakpoint on a line of a file. Lines count from zero.
#[derive(Clone, Copy, Debug, PartialEq, Eq, Structural)]
pub struct Breakpoint {
    pub line: usize,
    pub active: bool,
}

/// One entry of the index: a file path and a breakpoint in that file.
#[derive(Clone, Debug, PartialEq, Eq)]
pub struct BreakpointEntry {
    pub path: String,
    pub breakpoint: Breakpoint,
}

/// The mathematical value of an entry.
pub ghost struct EntryView {
    pub path: Seq<char>,
    pub line: usize,
    pub active: bool,
}

impl View for BreakpointEntry {
    type V = EntryView;

    open spec fn view(&self) -> EntryView {
        EntryView { path: self.path@, line: self.breakpoint.line, active: self.breakpoint.active }
    }
}

/// The values of a run of entries.
pub open spec fn entry_views(entries: Seq<BreakpointEntry>) -> Seq<EntryView> {
    entries.map_values(|e: BreakpointEntry| e@)
}

/// Whether `e` is the entry for `path` and `line`.
pub open spec fn names(e: EntryView, path: Seq<char>, line: usize) -> bool {
    e.path == path && e.line == line
}

/// The listing order: by path, then by line.
pub open spec fn entry_precedes(a: EntryView, b: EntryView) -> bool {
    text_precedes(a.path, b.path) || (a.path == b.path && a.line < b.line)
}

/// Every entry precedes all that follow it. This implies that no two entries
/// share a path and a line.
pub open spec fn entries_sorted(s: Seq<EntryView>) -> bool {
    forall|i: int, j: int| 0 <= i < j < s.len() ==> #[trigger] entry_precedes(s[i], s[j])
}

/// Whether `s` holds an entry for `path` and `line`.
pub open spec fn has_entry(s: Seq<EntryView>, path: Seq<char>, line: usize) -> bool {
    exists|i: int| 0 <= i < s.len() && names(#[trigger] s[i], path, line)
}

/// `e` with its `active` flag flipped.
pub open spec fn flipped(e: EntryView) -> EntryView {
    EntryView { active: !e.active, ..e }
}

/// `s` with the `active` flag of the entry for `path` and `line` flipped,
/// and every other entry as it was.
pub open spec fn toggled(s: Seq<EntryView>, path: Seq<char>, line: usize) -> Seq<EntryView> {
    s.map_values(
        |e: EntryView|
            if names(e, path, line) {
                flipped(e)
            } else {
                e
            },
    )
}

/// `s` without the entry for `path` and `line`.
pub open spec fn without(s: Seq<EntryView>, path: Seq<char>, line: usize) -> Seq<EntryView> {
    s.filter(|e: EntryView| !names(e, path, line))
}

/// `s` with `e` put in its place: the entries that precede `e`, then `e`,
/// then the entries that `e` precedes. An entry with the path and line of
/// `e` is replaced.
pub open spec fn with_entry(s: Seq<EntryView>, e: EntryView) -> Seq<EntryView> {
    s.filter(|x: EntryView| entry_precedes(x, e)) + seq![e] + s.filter(
        |x: EntryView| entry_precedes(e, x),
    )
}

/// No entry precedes itself.
pub proof fn lemma_entry_irreflexive(a: EntryView)
    ensures
        !entry_precedes(a, a),
{
    lemma_bytes_irreflexive(encode_utf8(a.path));
}

/// Two entries cannot precede one another.
pub proof fn lemma_entry_asymmetric(a: EntryView, b: EntryView)
    requires
        entry_precedes(a, b),
    ensures
        !entry_precedes(b, a),
{
    lemma_bytes_irreflexive(encode_utf8(a.path));
    if text_precedes(a.path, b.path) {
        lemma_bytes_asymmetric(encode_utf8(a.path), encode_utf8(b.path));
    }
}

/// The listing order is transitive.
pub proof fn lemma_entry_transitive(a: EntryView, b: EntryView, c: EntryView)
    requires
        entry_precedes(a, b),
        entry_precedes(b, c),
    ensures
        entry_precedes(a, c),
{
    if text_precedes(a.path, b.path) && text_precedes(b.path, c.path) {
        lemma_bytes_transitive(encode_utf8(a.path), encode_utf8(b.path), encode_utf8(c.path));
    }
}

/// In a sorted run an entry is found again by its path and line alone.
pub proof fn lemma_sorted_keys_unique(s: Seq<EntryView>, i: int, j: int)
    requires
        entries_sorted(s),
        0 <= i < s.len(),
        0 <= j < s.len(),
        s[i].path == s[j].path,
        s[i].line == s[j].line,
    ensures
        i == j,
{
    lemma_entry_irreflexive(s[i]);
    if i < j {
        assert(entry_precedes(s[i], s[j]));
        lemma_bytes_irreflexive(encode_utf8(s[i].path));
    } else if j < i {
        assert(entry_precedes(s[j], s[i]));
        lemma_bytes_irreflexive(encode_utf8(s[i].path));
    }
}

/// The index read as a mapping from path and line to the `active` flag:
/// the flag of the entry for `path` and `line`, `None` where there is no
/// such entry.
pub open spec fn active_at(s: Seq<EntryView>, path: Seq<char>, line: usize) -> Option<bool> {
    if has_entry(s, path, line) {
        Some(s[choose|i: int| 0 <= i < s.len() && names(#[trigger] s[i], path, line)].active)
    } else {
        None
    }
}

/// In a sorted run the mapping gives for the path and line of an entry the
/// flag of that entry.
pub proof fn lemma_active_at(s: Seq<EntryView>, k: int)
    requires
        entries_sorted(s),
        0 <= k < s.len(),
    ensures
        active_at(s, s[k].path, s[k].line) == Some(s[k].active),
{
    assert(names(s[k], s[k].path, s[k].line));
    let i = choose|i: int| 0 <= i < s.len() && names(#[trigger] s[i], s[k].path, s[k].line);
    lemma_sorted_keys_unique(s, i, k);
}

/// The entry that puts `breakpoint` into the file `path`.
pub open spec fn entry_of(path: Seq<char>, breakpoint: Breakpoint) -> EntryView {
    EntryView { path, line: breakpoint.line, active: breakpoint.active }
}

/// Where `entry` stands relative to the key `path` and `line`.
pub open spec fn key_order(entry: EntryView, path: Seq<char>, line: usize) -> TextOrder {
    if names(entry, path, line) {
        TextOrder::Same
    } else if text_precedes(entry.path, path) || (entry.path == path && entry.line < line) {
        TextOrder::Before
    } else {
        TextOrder::After
    }
}

/// Compares an entry with a path and a line in the listing order.
pub fn order_entry(entry: &BreakpointEntry, path: &str, line: usize) -> (r: TextOrder)
    ensures
        r == key_order(entry@, path@, line),
        r == TextOrder::Before <==> entry_precedes(entry@, EntryView { path: path@, line, active: false }),
        r == TextOrder::After <==> entry_precedes(EntryView { path: path@, line, active: false }, entry@),
{
    proof {
        lemma_bytes_irreflexive(encode_utf8(path@));
        if text_precedes(entry@.path, path@) {
            lemma_bytes_asymmetric(encode_utf8(entry@.path), encode_utf8(path@));
        }
    }
    match order_text(entry.path.as_str(), path) {
        TextOrder::Before => TextOrder::Before,
        TextOrder::After => TextOrder::After,
        TextOrder::Same => {
            if entry.breakpoint.line < line {
                TextOrder::Before
            } else if entry.breakpoint.line == line {
                TextOrder::Same
            } else {
                TextOrder::After
            }
        },
    }
}

/// Putting `e` at `k` into a sorted run, where all before `k` precede `e`
/// and `e` precedes all from `k` on, gives the run with `e` in its place.
proof fn lemma_insert_at(s: Seq<EntryView>, k: int, e: EntryView)
    requires
        entries_sorted(s),
        0 <= k <= s.len(),
        forall|j: int| 0 <= j < k ==> entry_precedes(#[trigger] s[j], e),
        forall|j: int| k <= j < s.len() ==> entry_precedes(e, #[trigger] s[j]),
    ensures
        s.insert(k, e) == with_entry(s, e),
        entries_sorted(s.insert(k, e)),
{
    let below = |x: EntryView| entry_precedes(x, e);
    let above = |x: EntryView| entry_precedes(e, x);
    let head = s.take(k);
    let tail = s.skip(k);
    assert forall|j: int| 0 <= j < tail.len() implies !below(#[trigger] tail[j]) by {
        lemma_entry_asymmetric(e, tail[j]);
    }
    assert forall|j: int| 0 <= j < head.len() implies !above(#[trigger] head[j]) by {
        lemma_entry_asymmetric(head[j], e);
    }
    lemma_filter_keeps_all(head, below);
    lemma_filter_drops_all(tail, below);
    lemma_filter_drops_all(head, above);
    lemma_filter_keeps_all(tail, above);
    lemma_filter_split(s, k, below);
    lemma_filter_split(s, k, above);
    let after = s.insert(k, e);
    assert(after =~= head + seq![e] + tail);
    assert(s.filter(below) =~= head);
    assert(s.filter(above) =~= tail);
    assert forall|i: int, j: int| 0 <= i < j < after.len() implies #[trigger] entry_precedes(
        after[i],
        after[j],
    ) by {
        if j < k {
            assert(after[i] == s[i] && after[j] == s[j]);
        } else if j == k {
            assert(after[i] == s[i]);
        } else if i < k {
            assert(after[i] == s[i] && after[j] == s[j - 1]);
        } else if i == k {
            assert(after[j] == s[j - 1]);
        } else {
            assert(after[i] == s[i - 1] && after[j] == s[j - 1]);
        }
    }
}

/// Putting `e` in place of the entry at `k` that has its path and line
/// gives the run with `e` in its place.
proof fn lemma_replace_at(s: Seq<EntryView>, k: int, e: EntryView)
    requires
        entries_sorted(s),
        0 <= k < s.len(),
        names(s[k], e.path, e.line),
    ensures
        s.update(k, e) == with_entry(s, e),
        entries_sorted(s.update(k, e)),
{
    let below = |x: EntryView| entry_precedes(x, e);
    let above = |x: EntryView| entry_precedes(e, x);
    let head = s.take(k);
    let tail = s.skip(k + 1);
    lemma_entry_irreflexive(e);
    lemma_bytes_irreflexive(encode_utf8(e.path));
    assert forall|j: int| 0 <= j < head.len() implies below(#[trigger] head[j]) && !above(
        head[j],
    ) by {
        assert(entry_precedes(s[j], s[k]));
        lemma_entry_asymmetric(head[j], e);
    }
    assert forall|j: int| 0 <= j < tail.len() implies above(#[trigger] tail[j]) && !below(
        tail[j],
    ) by {
        assert(entry_precedes(s[k], s[j + k + 1]));
        lemma_entry_asymmetric(e, tail[j]);
    }
    lemma_filter_keeps_all(head, below);
    lemma_filter_drops_all(tail, below);
    lemma_filter_drops_all(head, above);
    lemma_filter_keeps_all(tail, above);
    lemma_filter_drops_all(seq![s[k]], below);
    lemma_filter_drops_all(seq![s[k]], above);
    assert(s =~= head + seq![s[k]] + tail);
    Seq::filter_distributes_over_add(head + seq![s[k]], tail, below);
    Seq::filter_distributes_over_add(head, seq![s[k]], below);
    Seq::filter_distributes_over_add(head + seq![s[k]], tail, above);
    Seq::filter_distributes_over_add(head, seq![s[k]], above);
    let after = s.update(k, e);
    assert(s.filter(below) =~= head);
    assert(s.filter(above) =~= tail);
    assert(after =~= head + seq![e] + tail);
    assert forall|i: int, j: int| 0 <= i < j < after.len() implies #[trigger] entry_precedes(
        after[i],
        after[j],
    ) by {
        assert(entry_precedes(s[i], s[j]));
    }
}

/// The breakpoints of all files, keyed by path and line.
#[derive(Clone, Debug, PartialEq, Eq)]
pub struct BreakpointIndex {
    entries: Vec<BreakpointEntry>,
}

impl View for BreakpointIndex {
    type V = Seq<EntryView>;

    closed spec fn view(&self) -> Seq<EntryView> {
        entry_views(self.entries@)
    }
}

impl BreakpointIndex {
    /// The index lists its entries in order.
    pub open spec fn wf(&self) -> bool {
        entries_sorted(self@)
    }

    /// An index without breakpoints.
    pub fn new() -> (r: Self)
        ensures
            r@ == Seq::<EntryView>::empty(),
            r.wf(),
    {
        let r = BreakpointIndex { entries: Vec::new() };
        assert(r@ =~= Seq::<EntryView>::empty());
        r
    }

    /// The number of breakpoints.
    pub fn len(&self) -> (n: usize)
        ensures
            n == self@.len(),
    {
        self.entries.len()
    }

    /// Where the entry for `path` and `line` stands, if there is one.
    fn position(&self, path: &str, line: usize) -> (r: Option<usize>)
        ensures
            match r {
                Some(k) => k < self@.len() && names(self@[k as int], path@, line),
                None => !has_entry(self@, path@, line),
            },
    {
        let mut i: usize = 0;
        while i < self.entries.len()
            invariant
                i <= self.entries.len(),
                forall|j: int| 0 <= j < i ==> !names(#[trigger] self@[j], path@, line),
            decreases self.entries.len() - i,
        {
            let entry = &self.entries[i];
            if entry.breakpoint.line == line && order_text(entry.path.as_str(), path)
                == TextOrder::Same {
                return Some(i);
            }
            i += 1;
        }
        None
    }

    /// The breakpoint on `line` of `path`, if there is one.
    pub fn get(&self, path: &str, line: usize) -> (r: Option<Breakpoint>)
        requires
            self.wf(),
        ensures
            r == match active_at(self@, path@, line) {
                Some(active) => Some(Breakpoint { line, active }),
                None => None,
            },
            r.is_some() == has_entry(self@, path@, line),
    {
        match self.position(path, line) {
            Some(k) => {
                proof {
                    lemma_active_at(self@, k as int);
                }
                Some(self.entries[k].breakpoint)
            },
            None => None,
        }
    }

    /// Flips the `active` flag of the breakpoint on `line` of `path`, and
    /// says whether there was one. Without such a breakpoint the index stays
    /// as it is; none is created.
    pub fn toggle(&mut self, path: &str, line: usize) -> (found: bool)
        requires
            old(self).wf(),
        ensures
            final(self).wf(),
            found == has_entry(old(self)@, path@, line),
            final(self)@ == toggled(old(self)@, path@, line),
            !found ==> final(self)@ == old(self)@,
            final(self)@.len() == old(self)@.len(),
    {
        match self.position(path, line) {
            Some(k) => {
                let bp = self.entries[k].breakpoint;
                let entry = BreakpointEntry {
                    path: self.entries[k].path.clone(),
                    breakpoint: Breakpoint { line: bp.line, active: !bp.active },
                };
                self.entries.set(k, entry);
                proof {
                    let before = old(self)@;
                    let after = self@;
                    assert forall|i: int| 0 <= i < before.len() implies #[trigger] after[i]
                        == toggled(before, path@, line)[i] by {
                        if i != k as int && names(before[i], path@, line) {
                            lemma_sorted_keys_unique(before, i, k as int);
                        }
                    }
                    assert(after =~= toggled(before, path@, line));
                    assert forall|i: int, j: int| 0 <= i < j < after.len() implies #[trigger] entry_precedes(
                        after[i],
                        after[j],
                    ) by {
                        assert(entry_precedes(before[i], before[j]));
                    }
                }
                true
            },
            None => {
                proof {
                    assert(self@ =~= toggled(self@, path@, line));
                }
                false
            },
        }
    }

    /// Puts `breakpoint` on its line of `path`. A breakpoint that is already
    /// on that line is replaced; every other entry stays, and the listing
    /// order is kept.
    pub fn insert(&mut self, path: &str, breakpoint: Breakpoint)
        requires
            old(self).wf(),
        ensures
            final(self).wf(),
            final(self)@ == with_entry(old(self)@, entry_of(path@, breakpoint)),
            has_entry(final(self)@, path@, breakpoint.line),
    {
        let ghost e = entry_of(path@, breakpoint);
        let mut i: usize = 0;
        while i < self.entries.len() && order_entry(&self.entries[i], path, breakpoint.line)
            == TextOrder::Before
            invariant
                i <= self.entries.len(),
                self@ == old(self)@,
                e == entry_of(path@, breakpoint),
                forall|j: int| 0 <= j < i ==> entry_precedes(#[trigger] self@[j], e),
            decreases self.entries.len() - i,
        {
            assert(self@[i as int] == self.entries@[i as int]@);
            i += 1;
        }
        let entry = BreakpointEntry { path: path.to_owned(), breakpoint };
        if i < self.entries.len() && order_entry(&self.entries[i], path, breakpoint.line)
            == TextOrder::Same {
            self.entries.set(i, entry);
            proof {
                assert(self@ =~= old(self)@.update(i as int, e));
                lemma_replace_at(old(self)@, i as int, e);
                assert(names(self@[i as int], path@, breakpoint.line));
            }
        } else {
            self.entries.insert(i, entry);
            proof {
                assert(self@ =~= old(self)@.insert(i as int, e));
                assert forall|j: int| i <= j < old(self)@.len() implies entry_precedes(
                    e,
                    #[trigger] old(self)@[j],
                ) by {
                    if j > i {
                        assert(entry_precedes(old(self)@[i as int], old(self)@[j]));
                        lemma_entry_transitive(e, old(self)@[i as int], old(self)@[j]);
                    }
                }
                lemma_insert_at(old(self)@, i as int, e);
                assert(names(self@[i as int], path@, breakpoint.line));
            }
        }
    }

    /// All breakpoints with their paths, in the listing order: by path, and
    /// for one path by ascending line.
    pub fn list(&self) -> (r: Vec<BreakpointEntry>)
        ensures
            entry_views(r@) == self@,
            r@.len() == self@.len(),
    {
        let mut out: Vec<BreakpointEntry> = Vec::new();
        let mut i: usize = 0;
        while i < self.entries.len()
            invariant
                i <= self.entries.len(),
                entry_views(out@) == self@.take(i as int),
            decreases self.entries.len() - i,
        {
            let entry = &self.entries[i];
            out.push(BreakpointEntry { path: entry.path.clone(), breakpoint: entry.breakpoint });
            proof {
                assert(entry_views(out@) =~= self@.take(i as int).push(self@[i as int]));
                assert(self@.take(i + 1) =~= self@.take(i as int).push(self@[i as int]));
            }
            i += 1;
        }
        proof {
            assert(self@.take(i as int) =~= self@);
            assert(entry_views(out@).len() == out@.len());
        }
        out
    }

    /// Deletes the breakpoint on `line` of `path`, and says whether there
    /// was one. Without such a breakpoint the index stays as it is.
    pub fn remove(&mut self, path: &str, line: usize) -> (removed: bool)
        requires
            old(self).wf(),
        ensures
            final(self).wf(),
            removed == has_entry(old(self)@, path@, line),
            final(self)@ == without(old(self)@, path@, line),
            !removed ==> final(self)@ == old(self)@,
            !has_entry(final(self)@, path@, line),
    {
        match self.position(path, line) {
            Some(k) => {
                self.entries.remove(k);
                proof {
                    assert(self@ =~= old(self)@.remove(k as int));
                    lemma_remove_at(old(self)@, k as int, path@, line);
                }
                true
            },
            None => {
                proof {
                    lemma_filter_keeps_all(self@, |e: EntryView| !names(e, path@, line));
                }
                false
            },
        }
    }
}

/// Taking the entry for `path` and `line` out of a sorted run, where it
/// stands at `k`, gives the run without it, still sorted.
proof fn lemma_remove_at(s: Seq<EntryView>, k: int, path: Seq<char>, line: usize)
    requires
        entries_sorted(s),
        0 <= k < s.len(),
        names(s[k], path, line),
    ensures
        s.remove(k) == without(s, path, line),
        entries_sorted(s.remove(k)),
        !has_entry(s.remove(k), path, line),
{
    let pred = |e: EntryView| !names(e, path, line);
    assert forall|i: int| 0 <= i < s.len() && i != k implies pred(#[trigger] s[i]) by {
        if names(s[i], path, line) {
            lemma_sorted_keys_unique(s, i, k);
        }
    }
    lemma_filter_drops_one(s, k, pred);
    lemma_remove_keeps_sorted(s, k);
    let after = s.remove(k);
    assert forall|i: int| 0 <= i < after.len() implies !names(#[trigger] after[i], path, line) by {
        let a = if i < k { i } else { i + 1 };
        assert(after[i] == s[a]);
        assert(pred(s[a]));
    }
}

/// A sorted run stays sorted when an entry is taken out.
proof fn lemma_remove_keeps_sorted(s: Seq<EntryView>, k: int)
    requires
        entries_sorted(s),
        0 <= k < s.len(),
    ensures
        entries_sorted(s.remove(k)),
{
    let after = s.remove(k);
    assert forall|i: int, j: int| 0 <= i < j < after.len() implies #[trigger] entry_precedes(
        after[i],
        after[j],
    ) by {
        let a = if i < k { i } else { i + 1 };
        let b = if j < k { j } else { j + 1 };
        assert(after[i] == s[a]);
        assert(after[j] == s[b]);
        assert(entry_precedes(s[a], s[b]));
    }
}

/// Toggling a path and line that the run does not hold changes nothing.
pub proof fn lemma_toggle_absent(s: Seq<EntryView>, path: Seq<char>, line: usize)
    requires
        !has_entry(s, path, line),
    ensures
        toggled(s, path, line) == s,
{
    assert(toggled(s, path, line) =~= s);
}

/// Toggling the path and line of the entry at `k` of a sorted run flips the
/// `active` flag of that entry and leaves every other entry as it was.
pub proof fn lemma_toggle_flips_one(s: Seq<EntryView>, path: Seq<char>, line: usize, k: int)
    requires
        entries_sorted(s),
        0 <= k < s.len(),
        names(s[k], path, line),
    ensures
        toggled(s, path, line) == s.update(k, flipped(s[k])),
        toggled(s, path, line)[k].active == !s[k].active,
        forall|i: int| 0 <= i < s.len() && i != k ==> #[trigger] toggled(s, path, line)[i] == s[i],
{
    assert forall|i: int| 0 <= i < s.len() && i != k implies #[trigger] toggled(s, path, line)[i]
        == s[i] by {
        if names(s[i], path, line) {
            lemma_sorted_keys_unique(s, i, k);
        }
    }
    assert(toggled(s, path, line) =~= s.update(k, flipped(s[k])));
}

/// Toggling twice gives the run again.
pub proof fn lemma_toggle_twice(s: Seq<EntryView>, path: Seq<char>, line: usize)
    ensures
        toggled(toggled(s, path, line), path, line) == s,
{
    assert(toggled(toggled(s, path, line), path, line) =~= s);
}

/// A toggle read on the mapping: the flag under the toggled path and line
/// is flipped where there is one, and the flag under every other path and
/// line, present or not, is what it was.
pub proof fn lemma_toggle_mapping(
    s: Seq<EntryView>,
    path: Seq<char>,
    line: usize,
    other_path: Seq<char>,
    other_line: usize,
)
    requires
        entries_sorted(s),
    ensures
        entries_sorted(toggled(s, path, line)),
        active_at(toggled(s, path, line), path, line) == match active_at(s, path, line) {
            Some(active) => Some(!active),
            None => None,
        },
        (other_path != path || other_line != line) ==> active_at(
            toggled(s, path, line),
            other_path,
            other_line,
        ) == active_at(s, other_path, other_line),
{
    let t = toggled(s, path, line);
    assert forall|i: int, j: int| 0 <= i < j < t.len() implies #[trigger] entry_precedes(
        t[i],
        t[j],
    ) by {
        assert(entry_precedes(s[i], s[j]));
    }
    lemma_same_keys(s, t, path, line);
    lemma_same_keys(s, t, other_path, other_line);
    if has_entry(s, path, line) {
        let k = choose|i: int| 0 <= i < s.len() && names(#[trigger] s[i], path, line);
        lemma_active_at(s, k);
        lemma_active_at(t, k);
    }
    if (other_path != path || other_line != line) && has_entry(s, other_path, other_line) {
        let k = choose|i: int| 0 <= i < s.len() && names(#[trigger] s[i], other_path, other_line);
        lemma_active_at(s, k);
        lemma_active_at(t, k);
    }
}

/// Two runs that hold the same paths and lines at the same places hold an
/// entry for the same paths and lines.
proof fn lemma_same_keys(s: Seq<EntryView>, t: Seq<EntryView>, path: Seq<char>, line: usize)
    requires
        s.len() == t.len(),
        forall|i: int|
            0 <= i < s.len() ==> (#[trigger] s[i]).path == t[i].path && s[i].line == t[i].line,
    ensures
        has_entry(s, path, line) == has_entry(t, path, line),
{
    if has_entry(s, path, line) {
        let k = choose|i: int| 0 <= i < s.len() && names(#[trigger] s[i], path, line);
        assert(names(t[k], path, line));
    }
    if has_entry(t, path, line) {
        let k = choose|i: int| 0 <= i < t.len() && names(#[trigger] t[i], path, line);
        assert(names(s[k], path, line));
    }
}

/// A removal read on the mapping: nothing is left under the removed path
/// and line, and the flag under every other path and line is what it was.
pub proof fn lemma_remove_mapping(
    s: Seq<EntryView>,
    path: Seq<char>,
    line: usize,
    other_path: Seq<char>,
    other_line: usize,
)
    requires
        entries_sorted(s),
    ensures
        active_at(without(s, path, line), path, line) is None,
        (other_path != path || other_line != line) ==> active_at(
            without(s, path, line),
            other_path,
            other_line,
        ) == active_at(s, other_path, other_line),
{
    let pred = |e: EntryView| !names(e, path, line);
    if has_entry(s, path, line) {
        let k = choose|i: int| 0 <= i < s.len() && names(#[trigger] s[i], path, line);
        lemma_remove_at(s, k, path, line);
        let t = s.remove(k);
        if other_path != path || other_line != line {
            if has_entry(s, other_path, other_line) {
                let j = choose|i: int|
                    0 <= i < s.len() && names(#[trigger] s[i], other_path, other_line);
                let j2 = if j < k {
                    j
                } else {
                    j - 1
                };
                assert(t[j2] == s[j]);
                lemma_active_at(s, j);
                lemma_active_at(t, j2);
            }
            if has_entry(t, other_path, other_line) {
                let j2 = choose|i: int|
                    0 <= i < t.len() && names(#[trigger] t[i], other_path, other_line);
                let j = if j2 < k {
                    j2
                } else {
                    j2 + 1
                };
                assert(t[j2] == s[j]);
                assert(names(s[j], other_path, other_line));
            }
        }
    } else {
        lemma_filter_keeps_all(s, pred);
    }
}

/// A breakpoint as the panel shows it.
#[derive(Clone, Debug, PartialEq, Eq)]
pub struct BreakpointRow {
    /// The path under which the breakpoint is stored.
    pub path: String,
    /// The line of the breakpoint, counted from zero.
    pub line: usize,
    pub active: bool,
    /// The line as it is shown, counted from one.
    pub display_line: usize,
    /// The final component of the shown path, empty where it has none.
    pub file_name: String,
    /// The folder of the shown path, empty where it has none.
    pub folder: String,
    /// Whether the folder is left out because it is empty.
    pub folder_hidden: bool,
}

/// The mathematical value of a row.
pub ghost struct BreakpointRowView {
    pub path: Seq<char>,
    pub line: usize,
    pub active: bool,
    pub display_line: usize,
    pub file_name: Seq<char>,
    pub folder: Seq<char>,
    pub folder_hidden: bool,
}

impl View for BreakpointRow {
    type V = BreakpointRowView;

    open spec fn view(&self) -> BreakpointRowView {
        BreakpointRowView {
            path: self.path@,
            line: self.line,
            active: self.active,
            display_line: self.display_line,
            file_name: self.file_name@,
            folder: self.folder@,
            folder_hidden: self.folder_hidden,
        }
    }
}

/// The values of a run of rows.
pub open spec fn row_views(rows: Seq<BreakpointRow>) -> Seq<BreakpointRowView> {
    rows.map_values(|r: BreakpointRow| r@)
}

/// The row for the entry `e` in a workspace with the root `root`. Name and
/// folder are those of the shown path; the stored path stays the full one.
pub open spec fn row_of(e: EntryView, root: Option<Seq<char>>) -> BreakpointRowView {
    let shown = shown_path(e.path, root);
    BreakpointRowView {
        path: e.path,
        line: e.line,
        active: e.active,
        display_line: one_based(e.line),
        file_name: text_or_empty(path_file_name(shown)),
        folder: text_or_empty(path_parent(shown)),
        folder_hidden: text_or_empty(path_parent(shown)).len() == 0,
    }
}

/// The rows for a run of entries, one for each, in the same order.
pub open spec fn rows_of(s: Seq<EntryView>, root: Option<Seq<char>>) -> Seq<BreakpointRowView> {
    s.map_values(|e: EntryView| row_of(e, root))
}

/// What tells one row from another when the panel is drawn again: the
/// stored path, the line and the `active` flag.
pub open spec fn row_key(r: BreakpointRowView) -> (Seq<char>, usize, bool) {
    (r.path, r.line, r.active)
}

/// Builds the row for `entry`. `root` is the workspace root, if one is
/// configured.
pub fn breakpoint_row(entry: &BreakpointEntry, root: Option<&str>) -> (r: BreakpointRow)
    ensures
        r@ == row_of(entry@, slice_text_of(root)),
{
    let shown = display_path(entry.path.as_str(), root);
    let file_name = file_name_or_empty(shown.as_str());
    let folder = folder_or_empty(shown.as_str());
    let folder_hidden = folder.as_str().is_empty();
    BreakpointRow {
        path: entry.path.clone(),
        line: entry.breakpoint.line,
        active: entry.breakpoint.active,
        display_line: to_one_based(entry.breakpoint.line),
        file_name,
        folder,
        folder_hidden,
    }
}

impl BreakpointRow {
    /// The key of the row.
    pub fn key(&self) -> (k: (String, usize, bool))
        ensures
            (k.0@, k.1, k.2) == row_key(self@),
    {
        (self.path.clone(), self.line, self.active)
    }

    /// Where a click on the row leads: the line of the breakpoint in the
    /// file under its stored path.
    pub fn jump_target(&self) -> (t: JumpTarget)
        ensures
            t@ == (JumpTargetView { path: self@.path, position: JumpPosition::Line(self@.line) }),
    {
        JumpTarget { path: self.path.clone(), position: JumpPosition::Line(self.line) }
    }
}

impl BreakpointIndex {
    /// The rows of all breakpoints, in the listing order.
    pub fn rows(&self, root: Option<&str>) -> (r: Vec<BreakpointRow>)
        ensures
            row_views(r@) == rows_of(self@, slice_text_of(root)),
            r@.len() == self@.len(),
    {
        let mut out: Vec<BreakpointRow> = Vec::new();
        let mut i: usize = 0;
        while i < self.entries.len()
            invariant
                i <= self.entries.len(),
                row_views(out@) == rows_of(self@, slice_text_of(root)).take(i as int),
            decreases self.entries.len() - i,
        {
            let ghost all = rows_of(self@, slice_text_of(root));
            let row = breakpoint_row(&self.entries[i], root);
            out.push(row);
            proof {
                assert(self@[i as int] == self.entries@[i as int]@);
                assert(row_views(out@) =~= all.take(i as int).push(all[i as int]));
                assert(all.take(i + 1) =~= all.take(i as int).push(all[i as int]));
            }
            i += 1;
        }
        proof {
            let all = rows_of(self@, slice_text_of(root));
            assert(all.take(i as int) =~= all);
            assert(row_views(out@).len() == out@.len());
        }
        out
    }
}

} // verus!
