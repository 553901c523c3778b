use crate::cursor::Cursor;
use crate::text::clone_lines;
use crate::text::lines_view;
use crate::text::Line;
use crate::text::LineView;
use std::collections::VecDeque;
use vstd::prelude::*;

verus! {

/// The most snapshots that a history keeps.
pub const MAX_EDITS: usize = 1000;

/// One snapshot of an editor: its cursor and its lines of runs.
pub struct EditHistoryItem {
    pub cursor: Cursor,
    pub lines: Vec<Line>,
}

/// What a snapshot holds, as plain values.
pub struct Snapshot {
    pub cursor: Cursor,
    pub lines: Seq<LineView>,
}

impl View for EditHistoryItem {
    type V = Snapshot;

    open spec fn view(&self) -> Snapshot {
        Snapshot { cursor: self.cursor, lines: lines_view(self.lines) }
    }
}

impl EditHistoryItem {
    /// A copy of the snapshot.
    pub fn duplicate(&self) -> (copy: EditHistoryItem)
        ensures
            copy@ == self@,
    {
        EditHistoryItem { cursor: self.cursor, lines: clone_lines(&self.lines) }
    }
}

/// The undo history of an editor: snapshots in the order they were taken,
/// and the place of the editor's present state among them. With
/// `current_edit` equal to the number of snapshots the present state is newer
/// than all of them.
pub struct CosmicEditHistory {
    pub edits: VecDeque<EditHistoryItem>,
    pub current_edit: usize,
}

/// What a history holds, as plain values.
pub struct HistoryView {
    pub edits: Seq<Snapshot>,
    pub current: nat,
}

impl View for CosmicEditHistory {
    type V = HistoryView;

    open spec fn view(&self) -> HistoryView {
        HistoryView {
            edits: self.edits@.map_values(|item: EditHistoryItem| item@),
            current: self.current_edit as nat,
        }
    }
}

/// A history is well formed where its index does not pass the end of its
/// snapshots, and the snapshots do not exceed the bound.
pub open spec fn history_wf(h: HistoryView) -> bool {
    h.current <= h.edits.len() <= MAX_EDITS
}

/// The snapshots with the oldest dropped where they fill the bound, so that
/// one more can be taken.
pub open spec fn with_room(edits: Seq<Snapshot>) -> Seq<Snapshot> {
    if edits.len() >= MAX_EDITS {
        edits.skip(1)
    } else {
        edits
    }
}

/// The history after a snapshot was recorded: what lay ahead of the present
/// state is dropped, the snapshot is added, and the present state is newer
/// than all snapshots.
pub open spec fn recorded(h: HistoryView, item: Snapshot) -> HistoryView {
    let kept = with_room(h.edits.take(h.current as int));
    HistoryView { edits: kept.push(item), current: kept.len() + 1 }
}

/// Whether there is a snapshot older than the present state.
pub open spec fn can_undo(h: HistoryView) -> bool {
    h.current > 0
}

/// Whether there is a snapshot newer than the present state.
pub open spec fn can_redo(h: HistoryView) -> bool {
    h.current + 1 < h.edits.len()
}

/// The history after one step back from the state `live`. Where the present
/// state is newer than all snapshots it is recorded first, so that the step
/// can be taken forward again.
pub open spec fn undone(h: HistoryView, live: Snapshot) -> HistoryView {
    if h.current == h.edits.len() {
        let r = recorded(h, live);
        HistoryView { edits: r.edits, current: (r.current - 2) as nat }
    } else {
        HistoryView { edits: h.edits, current: (h.current - 1) as nat }
    }
}

/// The history after one step forward.
pub open spec fn redone(h: HistoryView) -> HistoryView {
    HistoryView { edits: h.edits, current: h.current + 1 }
}

/// The snapshot at the history's index: the state that the editor is in
/// after an undo or a redo.
pub open spec fn present(h: HistoryView) -> Snapshot {
    h.edits[h.current as int]
}

/// Undo after redo restores the history as it was, and with it the state
/// that the editor was in before the edit that the redo applied again.
pub proof fn lemma_undo_after_redo(h: HistoryView)
    requires
        history_wf(h),
        can_redo(h),
    ensures
        can_undo(redone(h)),
        undone(redone(h), present(redone(h))) == h,
        present(undone(redone(h), present(redone(h)))) == present(h),
{
}

/// Redo after undo restores the state that was undone.
pub proof fn lemma_redo_after_undo(h: HistoryView, live: Snapshot)
    requires
        history_wf(h),
        can_undo(h),
        h.current < h.edits.len() ==> live == present(h),
    ensures
        can_redo(undone(h, live)),
        present(redone(undone(h, live))) == live,
{
    if h.current == h.edits.len() {
        assert(h.edits.take(h.current as int) =~= h.edits);
    }
}

/// Undo after an edit restores the snapshot that was recorded just before
/// the edit, whatever state the edit led to.
pub proof fn lemma_undo_after_record(h: HistoryView, before: Snapshot, after: Snapshot)
    requires
        history_wf(h),
    ensures
        history_wf(recorded(h, before)),
        can_undo(recorded(h, before)),
        present(undone(recorded(h, before), after)) == before,
        history_wf(undone(recorded(h, before), after)),
{
    let r = recorded(h, before);
    assert(r.edits.take(r.current as int) =~= r.edits);
}

impl CosmicEditHistory {
    /// The history is well formed.
    pub open spec fn wf(&self) -> bool {
        history_wf(self@)
    }

    /// The empty history.
    pub fn new() -> (history: CosmicEditHistory)
        ensures
            history@.edits.len() == 0,
            history@.current == 0,
            history.wf(),
    {
        CosmicEditHistory { edits: VecDeque::new(), current_edit: 0 }
    }

    fn make_room(&mut self)
        requires
            old(self).current_edit == old(self).edits@.len(),
            old(self).wf(),
        ensures
            final(self)@.edits == with_room(old(self)@.edits),
            final(self).current_edit == final(self).edits@.len(),
            final(self)@.edits.len() < MAX_EDITS,
            final(self).current_edit == (if old(self).current_edit >= MAX_EDITS {
                old(self).current_edit - 1
            } else {
                old(self).current_edit as int
            }),
    {
        if self.edits.len() >= MAX_EDITS {
            let _ = self.edits.pop_front();
            self.current_edit = self.current_edit - 1;
            assert(self@.edits =~= with_room(old(self)@.edits));
        }
    }

    fn append(&mut self, item: EditHistoryItem)
        requires
            old(self).current_edit == old(self).edits@.len(),
            old(self).edits@.len() < MAX_EDITS,
        ensures
            final(self)@.edits == old(self)@.edits.push(item@),
            final(self).current_edit == final(self).edits@.len(),
            final(self).current_edit == old(self).current_edit + 1,
    {
        self.edits.push_back(item);
        self.current_edit = self.current_edit + 1;
        assert(self@.edits =~= old(self)@.edits.push(item@));
    }

    /// Records the state that an edit is about to change. Snapshots ahead of
    /// the present state are dropped: there is no redo after a new edit.
    pub fn record(&mut self, item: EditHistoryItem)
        requires
            old(self).wf(),
        ensures
            final(self)@ == recorded(old(self)@, item@),
            final(self).wf(),
            !can_redo(final(self)@),
    {
        self.edits.truncate(self.current_edit);
        assert(self@.edits =~= old(self)@.edits.take(old(self)@.current as int));
        self.make_room();
        self.append(item);
        assert(self@.edits == recorded(old(self)@, item@).edits);
    }

    /// Steps back from the state `live`, and returns the state to restore.
    /// `None` where there is no older snapshot; the history is then
    /// unchanged.
    pub fn undo(&mut self, live: EditHistoryItem) -> (restored: Option<EditHistoryItem>)
        requires
            old(self).wf(),
        ensures
            final(self).wf(),
            restored is Some <==> can_undo(old(self)@),
            restored is None ==> final(self)@ == old(self)@,
            restored matches Some(item) ==> final(self)@ == undone(old(self)@, live@) && item@
                == present(final(self)@),
    {
        if self.current_edit == 0 {
            return None;
        }
        if self.current_edit == self.edits.len() {
            assert(self@.edits.take(self@.current as int) =~= self@.edits);
            self.make_room();
            self.append(live);
            self.current_edit = self.current_edit - 2;
        } else {
            self.current_edit = self.current_edit - 1;
        }
        let item = self.edits[self.current_edit].duplicate();
        Some(item)
    }

    /// Steps forward again, and returns the state to restore. `None` where
    /// there is no newer snapshot; the history is then unchanged.
    pub fn redo(&mut self) -> (restored: Option<EditHistoryItem>)
        requires
            old(self).wf(),
        ensures
            final(self).wf(),
            restored is Some <==> can_redo(old(self)@),
            restored is None ==> final(self)@ == old(self)@,
            restored matches Some(item) ==> final(self)@ == redone(old(self)@) && item@ == present(
                final(self)@,
            ),
    {
        if self.edits.len() < 2 || self.current_edit >= self.edits.len() - 1 {
            return None;
        }
        self.current_edit = self.current_edit + 1;
        let item = self.edits[self.current_edit].duplicate();
        Some(item)
    }
}

impl Default for CosmicEditHistory {
    fn default() -> (history: Self)
        ensures
            history@.edits.len() == 0,
            history@.current == 0,
            history.wf(),
    {
        CosmicEditHistory::new()
    }
}

} // verus!
