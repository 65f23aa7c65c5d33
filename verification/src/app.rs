//! The panel's state: the rows, the cursor and scroll position, the done and cleared
//! marks, and the click feedback message.
//!
//! Everything that touches the outside world (appending to the marks files, opening a
//! file, the clipboard, closing the panel, wiping the queue) is queued as an `Effect` for
//! the event loop to perform; what the loop learns back comes in through `poll`,
//! `file_opened` and `set_clock`.
use vstd::prelude::*;

use crate::log::{
    backfill, copy_row, fold_rows, group_view, is_item, key_of, lines_bytes, lines_view,
    poll_fits, poll_tail, poll_tail_spec, rows_view, Row, RowView, TailRead,
};
use crate::marks::MarkSet;
use crate::input::{within, within_spec, Input, Key, PanelAreas};
use crate::actions::{file_label, opened_message, opened_message_spec, file_label_spec, Opener};

verus! {

/// Column (within the list area, 0-indexed) where a command row's "[ ]"/"[x]" checkbox
/// ends - a 2-space indent then the 4-char box. Clicks before this column toggle done;
/// clicks at or past it copy the command instead.
pub const CHECKBOX_END_COL: u16 = 6;

/// How many rows a single scroll-wheel tick moves, independent of cursor position.
pub const WHEEL_SCROLL_LINES: isize = 3;

/// How long a click-feedback message stays, in milliseconds of the panel clock.
pub const STATUS_TTL_MS: u64 = 1500;

/// Work the panel asks its event loop to do.
pub enum Effect {
    /// Append this key to the done-marks file.
    MarkDone(String),
    /// Append this key to the cleared-marks file.
    MarkCleared(String),
    /// Open this file, then report which opener was used through `App::file_opened`.
    OpenFile(String),
    /// Put this command on the terminal's clipboard.
    CopyCommand(String),
    /// Wipe the log and both marks files.
    ClearAll,
    /// Close the panel.
    Close,
}

/// The contents of an `Effect`.
pub enum EffectView {
    MarkDone(Seq<char>),
    MarkCleared(Seq<char>),
    OpenFile(Seq<char>),
    CopyCommand(Seq<char>),
    ClearAll,
    Close,
}

impl View for Effect {
    type V = EffectView;

    open spec fn view(&self) -> EffectView {
        match self {
            Effect::MarkDone(k) => EffectView::MarkDone(k@),
            Effect::MarkCleared(k) => EffectView::MarkCleared(k@),
            Effect::OpenFile(p) => EffectView::OpenFile(p@),
            Effect::CopyCommand(c) => EffectView::CopyCommand(c@),
            Effect::ClearAll => EffectView::ClearAll,
            Effect::Close => EffectView::Close,
        }
    }
}

/// The views of a list of effects.
pub open spec fn effects_view(e: Seq<Effect>) -> Seq<EffectView> {
    e.map_values(|x: Effect| x@)
}

// ---------------------------------------------------------------------------------------
// Row-list specifications
// ---------------------------------------------------------------------------------------

/// Indices of the item rows, in order.
pub open spec fn item_indices(rows: Seq<RowView>) -> Seq<usize>
    decreases rows.len(),
{
    if rows.len() == 0 {
        Seq::<usize>::empty()
    } else {
        let p = item_indices(rows.drop_last());
        if is_item(rows.last()) {
            p.push((rows.len() - 1) as usize)
        } else {
            p
        }
    }
}

/// The last item row, if there is one.
pub open spec fn last_item(rows: Seq<RowView>) -> Option<usize> {
    let it = item_indices(rows);
    if it.len() > 0 {
        Some(it.last())
    } else {
        None
    }
}

/// Position of `c` in `items`, or -1.
pub open spec fn slot_of(items: Seq<usize>, c: usize) -> int
    decreases items.len(),
{
    if items.len() == 0 {
        -1
    } else if items[0] == c {
        0
    } else {
        let r = slot_of(items.drop_first(), c);
        if r < 0 {
            -1
        } else {
            r + 1
        }
    }
}

/// Where keyboard navigation starts from: the cursor's position among the items, or the
/// first item when the cursor is elsewhere.
pub open spec fn cursor_slot(items: Seq<usize>, cursor: Option<usize>) -> int {
    match cursor {
        Some(c) => if slot_of(items, c) < 0 {
            0
        } else {
            slot_of(items, c)
        },
        None => 0,
    }
}

pub open spec fn clamp(x: int, lo: int, hi: int) -> int {
    if x < lo {
        lo
    } else if x > hi {
        hi
    } else {
        x
    }
}

/// The largest scroll offset that still fills the list area.
pub open spec fn max_scroll(len: int, height: int) -> int {
    if len > height {
        len - height
    } else {
        0
    }
}

/// The scroll offset after bringing the cursor into view and clamping to `max_scroll`.
pub open spec fn visible_scroll(scroll: int, height: int, cursor: Option<usize>, len: int) -> int {
    let s1 = match cursor {
        Some(c) => if c < scroll {
            c as int
        } else if c >= scroll + height {
            c + 1 - height
        } else {
            scroll
        },
        None => scroll,
    };
    if s1 < max_scroll(len, height) {
        s1
    } else {
        max_scroll(len, height)
    }
}

/// Lemma: the item indices are increasing indices of item rows, and list every item row.
pub proof fn lemma_item_indices(rows: Seq<RowView>)
    requires
        rows.len() <= usize::MAX,
    ensures
        forall|j: int|
            0 <= j < item_indices(rows).len() ==> #[trigger] item_indices(rows)[j] < rows.len()
                && is_item(rows[item_indices(rows)[j] as int]),
        forall|j: int, k: int|
            0 <= j < k < item_indices(rows).len() ==> item_indices(rows)[j]
                < item_indices(rows)[k],
        forall|i: int|
            0 <= i < rows.len() && is_item(#[trigger] rows[i]) ==> item_indices(rows).contains(
                i as usize,
            ),
    decreases rows.len(),
{
    if rows.len() > 0 {
        let d = rows.drop_last();
        lemma_item_indices(d);
        let p = item_indices(d);
        let q = item_indices(rows);
        let n = (rows.len() - 1) as usize;
        assert(n == rows.len() - 1);
        if is_item(rows.last()) {
            assert(q == p.push(n));
            assert forall|j: int| 0 <= j < q.len() implies #[trigger] q[j] < rows.len() && is_item(
                rows[q[j] as int],
            ) by {
                if j < p.len() {
                    assert(q[j] == p[j]);
                    assert(d[p[j] as int] == rows[p[j] as int]);
                } else {
                    assert(q[j] == n);
                }
            }
            assert forall|j: int, k: int| 0 <= j < k < q.len() implies q[j] < q[k] by {
                if k < p.len() {
                    assert(q[j] == p[j] && q[k] == p[k]);
                } else {
                    assert(q[j] == p[j]);
                    assert(q[k] == n);
                    assert(p[j] < d.len());
                }
            }
            assert forall|i: int| 0 <= i < rows.len() && is_item(#[trigger] rows[i]) implies q.contains(
                i as usize,
            ) by {
                if i < rows.len() - 1 {
                    assert(d[i] == rows[i]);
                    assert(p.contains(i as usize));
                    let j = choose|j: int| 0 <= j < p.len() && p[j] == i as usize;
                    assert(q[j] == i as usize);
                } else {
                    assert(q[p.len() as int] == i as usize);
                }
            }
        } else {
            assert(q == p);
            assert forall|j: int| 0 <= j < q.len() implies #[trigger] q[j] < rows.len() && is_item(
                rows[q[j] as int],
            ) by {
                assert(d[p[j] as int] == rows[p[j] as int]);
            }
            assert forall|i: int| 0 <= i < rows.len() && is_item(#[trigger] rows[i]) implies q.contains(
                i as usize,
            ) by {
                if i < rows.len() - 1 {
                    assert(d[i] == rows[i]);
                } else {
                    assert(rows[i] == rows.last());
                }
            }
        }
    }
}

/// Lemma: `slot_of` finds the first position holding `c`.
pub proof fn lemma_slot_at(items: Seq<usize>, c: usize, j: int)
    requires
        0 <= j < items.len(),
        items[j] == c,
        forall|k: int| 0 <= k < j ==> items[k] != c,
    ensures
        slot_of(items, c) == j,
    decreases j,
{
    if j > 0 {
        lemma_slot_at(items.drop_first(), c, j - 1);
    }
}

/// Lemma: `slot_of` is -1 when `c` is absent.
pub proof fn lemma_slot_none(items: Seq<usize>, c: usize)
    requires
        forall|k: int| 0 <= k < items.len() ==> items[k] != c,
    ensures
        slot_of(items, c) == -1,
    decreases items.len(),
{
    if items.len() > 0 {
        lemma_slot_none(items.drop_first(), c);
    }
}

/// Whether a row is a group header.
pub open spec fn is_header(r: RowView) -> bool {
    r is GroupHeader
}

/// Whether row `i` is a header with no item right under it.
pub open spec fn header_empty(rows: Seq<RowView>, i: int) -> bool {
    is_header(rows[i]) && !(i + 1 < rows.len() && is_item(rows[i + 1]))
}

/// Whether pruning keeps row `i`: every row but an empty header and the blank line just
/// before one.
pub open spec fn kept_by_prune(rows: Seq<RowView>, i: int) -> bool {
    !header_empty(rows, i) && !(rows[i] is Blank && i + 1 < rows.len() && header_empty(
        rows,
        i + 1,
    ))
}

/// The first `k` rows, pruned.
pub open spec fn prune_upto(rows: Seq<RowView>, k: int) -> Seq<RowView>
    decreases k,
{
    if k <= 0 {
        Seq::<RowView>::empty()
    } else {
        prune_upto(rows, k - 1) + (if kept_by_prune(rows, k - 1) {
            seq![rows[k - 1]]
        } else {
            Seq::<RowView>::empty()
        })
    }
}

/// The rows without any header left with no item under it, nor that header's blank line.
pub open spec fn prune_spec(rows: Seq<RowView>) -> Seq<RowView> {
    prune_upto(rows, rows.len() as int)
}

/// The rows without the item keyed `k`.
pub open spec fn drop_key(rows: Seq<RowView>, k: Seq<char>) -> Seq<RowView>
    decreases rows.len(),
{
    if rows.len() == 0 {
        Seq::<RowView>::empty()
    } else {
        let p = drop_key(rows.drop_last(), k);
        if key_of(rows.last()) == Some(k) {
            p
        } else {
            p.push(rows.last())
        }
    }
}

/// Whether a row shows an item whose key is in `cleared`.
pub open spec fn is_cleared_row(r: RowView, cleared: Set<Seq<char>>) -> bool {
    match key_of(r) {
        Some(k) => cleared.contains(k),
        None => false,
    }
}

/// The rows without the items whose keys are in `cleared`.
pub open spec fn drop_cleared(rows: Seq<RowView>, cleared: Set<Seq<char>>) -> Seq<RowView>
    decreases rows.len(),
{
    if rows.len() == 0 {
        Seq::<RowView>::empty()
    } else {
        let p = drop_cleared(rows.drop_last(), cleared);
        if is_cleared_row(rows.last(), cleared) {
            p
        } else {
            p.push(rows.last())
        }
    }
}

/// The keys of the items in the run of item rows starting at `j`.
pub open spec fn run_keys(rows: Seq<RowView>, j: int) -> Seq<Seq<char>>
    decreases rows.len() - j,
{
    if 0 <= j < rows.len() && is_item(rows[j]) {
        seq![key_of(rows[j]).unwrap()] + run_keys(rows, j + 1)
    } else {
        Seq::<Seq<char>>::empty()
    }
}

/// Rows, cleared marks and queued effects after clearing key `k`: the item leaves the rows,
/// the key joins the marks, and a key not marked before is queued for the file.
pub open spec fn clear_one(
    st: (Seq<RowView>, Set<Seq<char>>, Seq<EffectView>),
    k: Seq<char>,
) -> (Seq<RowView>, Set<Seq<char>>, Seq<EffectView>) {
    (
        drop_key(st.0, k),
        st.1.insert(k),
        if st.1.contains(k) {
            st.2
        } else {
            st.2.push(EffectView::MarkCleared(k))
        },
    )
}

/// `clear_one` for each key in turn.
pub open spec fn clear_keys(
    st: (Seq<RowView>, Set<Seq<char>>, Seq<EffectView>),
    keys: Seq<Seq<char>>,
) -> (Seq<RowView>, Set<Seq<char>>, Seq<EffectView>)
    decreases keys.len(),
{
    if keys.len() == 0 {
        st
    } else {
        clear_one(clear_keys(st, keys.drop_last()), keys.last())
    }
}

/// The keys that clearing row `idx` dismisses: the item's own key, or every key in the
/// section under a header; nothing for a blank row or past the end.
pub open spec fn keys_cleared_at(rows: Seq<RowView>, idx: int) -> Option<Seq<Seq<char>>> {
    if 0 <= idx < rows.len() {
        match rows[idx] {
            RowView::FileItem { key, .. } => Some(seq![key]),
            RowView::CommandItem { key, .. } => Some(seq![key]),
            RowView::GroupHeader { .. } => Some(run_keys(rows, idx + 1)),
            RowView::Blank => None,
        }
    } else {
        None
    }
}

/// No row shows an item whose key is in `cleared`.
pub open spec fn shows_no_cleared(rows: Seq<RowView>, cleared: Set<Seq<char>>) -> bool {
    forall|i: int| 0 <= i < rows.len() ==> !is_cleared_row(#[trigger] rows[i], cleared)
}

/// Rows drawn from rows that show nothing cleared show nothing cleared either.
pub proof fn lemma_rows_within(sub: Seq<RowView>, rows: Seq<RowView>, cleared: Set<Seq<char>>)
    requires
        shows_no_cleared(rows, cleared),
        forall|i: int| 0 <= i < sub.len() ==> rows.contains(#[trigger] sub[i]),
    ensures
        shows_no_cleared(sub, cleared),
{
    assert forall|i: int| 0 <= i < sub.len() implies !is_cleared_row(#[trigger] sub[i], cleared) by {
        assert(rows.contains(sub[i]));
        let j = choose|j: int| 0 <= j < rows.len() && rows[j] == sub[i];
    }
}

/// What activating a row asks for: open a file that resolved to a path, copy a command.
pub open spec fn activation_effect(r: RowView) -> Option<EffectView> {
    match r {
        RowView::FileItem { abspath: Some(p), .. } => Some(EffectView::OpenFile(p)),
        RowView::CommandItem { command, .. } => Some(EffectView::CopyCommand(command)),
        _ => None,
    }
}

/// The command shown full-screen after an activation: copying a command also opens it;
/// opening a file leaves what was shown.
pub open spec fn detail_after(e: EffectView, before: Option<Seq<char>>) -> Option<Seq<char>> {
    match e {
        EffectView::CopyCommand(c) => Some(c),
        _ => before,
    }
}


/// The key of the command at `cursor`, if the cursor is on a command.
pub open spec fn command_key_at(rows: Seq<RowView>, cursor: Option<usize>) -> Option<Seq<char>> {
    match cursor {
        Some(c) => if c < rows.len() {
            match rows[c as int] {
                RowView::CommandItem { key, .. } => Some(key),
                _ => None,
            }
        } else {
            None
        },
        None => None,
    }
}

/// Done marks and queued effects after marking `k` done.
pub open spec fn mark_done_spec(
    done: Set<Seq<char>>,
    pending: Seq<EffectView>,
    k: Seq<char>,
) -> (Set<Seq<char>>, Seq<EffectView>) {
    (
        done.insert(k),
        if done.contains(k) {
            pending
        } else {
            pending.push(EffectView::MarkDone(k))
        },
    )
}

// ---------------------------------------------------------------------------------------
// The panel state
// ---------------------------------------------------------------------------------------

pub struct App {
    pub rows: Vec<Row>,
    /// Index into `rows` of the highlighted row - set by keyboard navigation or mouse
    /// hover, whichever moved it last. Keyboard Up/Down only ever lands on items.
    pub cursor: Option<usize>,
    /// Index of the first row visible in the list area.
    pub scroll: usize,
    pub close_hovered: bool,
    pub clear_all_hovered: bool,
    pub should_quit: bool,
    /// The command shown full-screen over the list, if one is open: activating a command
    /// opens it, so a long or multiline command can be read where nothing reaches a clipboard.
    pub detail: Option<String>,
    offset: u64,
    home: String,
    last_key: Option<(String, String)>,
    done: MarkSet,
    cleared: MarkSet,
    /// The feedback message and the clock reading when it was set.
    status: Option<(String, u64)>,
    /// Milliseconds on the event loop's clock, as last reported through `set_clock`.
    clock: u64,
    /// Rows visible in the list area as of the last frame.
    visible_height: usize,
    effects: Vec<Effect>,
}

impl App {
    /// The state is well formed: the list area is at least one row tall, and no row shows
    /// an item marked cleared.
    pub open spec fn wf(&self) -> bool {
        &&& self.height() >= 1
        &&& shows_no_cleared(self.rows_v(), self.cleared_set())
    }

    /// The two states agree on the log position, the home directory, the open group, the
    /// marks, the clock, the hover flags, whether the panel is closing, and the command
    /// shown full-screen.
    pub open spec fn same_context(self, other: Self) -> bool {
        &&& self.same_setting(other)
        &&& self.detail_v() == other.detail_v()
    }

    /// As `same_context`, leaving out the command shown full-screen.
    pub open spec fn same_setting(self, other: Self) -> bool {
        &&& self.offset_of() == other.offset_of()
        &&& self.home_of() == other.home_of()
        &&& self.group_of() == other.group_of()
        &&& self.done_set() == other.done_set()
        &&& self.cleared_set() == other.cleared_set()
        &&& self.clock_of() == other.clock_of()
        &&& self.should_quit_v() == other.should_quit_v()
        &&& self.close_hovered_v() == other.close_hovered_v()
        &&& self.clear_all_hovered_v() == other.clear_all_hovered_v()
    }

    /// A well-formed panel never shows an item marked cleared: neither a start-up backfill,
    /// nor a poll, nor clearing puts one on screen.
    pub proof fn law_cleared_items_stay_hidden(&self)
        requires
            self.wf(),
        ensures
            shows_no_cleared(self.rows_v(), self.cleared_set()),
    {
    }

    /// The command shown full-screen, if any.
    pub closed spec fn detail_v(&self) -> Option<Seq<char>> {
        match self.detail {
            Some(d) => Some(d@),
            None => None,
        }
    }

    /// The rows are held in a `Vec`, so there are at most `usize::MAX` of them.
    pub proof fn lemma_rows_fit(&self)
        ensures
            self.rows_v().len() <= usize::MAX,
    {
        assert(self.rows_v().len() == self.rows@.len());
        assert(self.rows@.len() == self.rows.len());
    }

    pub closed spec fn cursor_v(&self) -> Option<usize> {
        self.cursor
    }

    pub closed spec fn scroll_v(&self) -> usize {
        self.scroll
    }

    pub closed spec fn should_quit_v(&self) -> bool {
        self.should_quit
    }

    pub closed spec fn close_hovered_v(&self) -> bool {
        self.close_hovered
    }

    pub closed spec fn clear_all_hovered_v(&self) -> bool {
        self.clear_all_hovered
    }

    pub closed spec fn height(&self) -> int {
        self.visible_height as int
    }

    pub closed spec fn offset_of(&self) -> u64 {
        self.offset
    }

    pub closed spec fn home_of(&self) -> Seq<char> {
        self.home@
    }

    pub closed spec fn group_of(&self) -> Option<(Seq<char>, Seq<char>)> {
        group_view(self.last_key)
    }

    pub closed spec fn done_set(&self) -> Set<Seq<char>> {
        self.done@
    }

    pub closed spec fn cleared_set(&self) -> Set<Seq<char>> {
        self.cleared@
    }

    pub closed spec fn clock_of(&self) -> u64 {
        self.clock
    }

    /// The feedback message and when it was set.
    pub closed spec fn status_of(&self) -> Option<(Seq<char>, u64)> {
        match self.status {
            Some(p) => Some((p.0@, p.1)),
            None => None,
        }
    }

    /// The effects queued and not yet taken.
    pub closed spec fn pending(&self) -> Seq<EffectView> {
        effects_view(self.effects@)
    }

    /// The views of the rows.
    pub closed spec fn rows_v(&self) -> Seq<RowView> {
        rows_view(self.rows@)
    }

    /// The message `status_text` shows: one set less than the time-to-live ago.
    pub open spec fn shown_status(&self) -> Option<Seq<char>> {
        match self.status_of() {
            Some(p) => if (self.clock_of() as int) < p.1 + STATUS_TTL_MS {
                Some(p.0)
            } else {
                None
            },
            None => None,
        }
    }

    /// Builds the panel from the log lines read at start-up: every record at or after
    /// `cutoff` that is not already cleared, grouped, with the cursor on the newest item.
    pub fn from_log(
        lines: &Vec<String>,
        cutoff: &str,
        home: String,
        done: MarkSet,
        cleared: MarkSet,
    ) -> (app: App)
        requires
            lines_bytes(lines_view(lines@)) <= u64::MAX,
        ensures
            app.wf(),
            app.offset_of() == lines_bytes(lines_view(lines@)),
            (app.rows_v(), app.group_of()) == fold_rows(
                lines_view(lines@),
                Some(cutoff@),
                (Seq::<RowView>::empty(), None),
                home@,
                cleared@,
            ),
            app.cursor_v() == last_item(app.rows_v()),
            app.scroll_v() == visible_scroll(0, 1, app.cursor_v(), app.rows_v().len() as int),
            app.home_of() == home@,
            app.done_set() == done@,
            app.cleared_set() == cleared@,
            app.status_of() is None,
            app.clock_of() == 0,
            app.height() == 1,
            app.pending() == Seq::<EffectView>::empty(),
            !app.close_hovered_v(),
            !app.clear_all_hovered_v(),
            !app.should_quit_v(),
            app.detail_v() is None,
    {
        let mut rows: Vec<Row> = Vec::new();
        let mut last_key: Option<(String, String)> = None;
        proof {
            assert(rows_view(rows@) =~= Seq::<RowView>::empty());
        }
        let offset = backfill(lines, cutoff, &mut rows, &mut last_key, home.as_str(), &cleared);
        proof {
            crate::laws::lemma_fold_shows_no_cleared(
                lines_view(lines@),
                Some(cutoff@),
                (Seq::<RowView>::empty(), None),
                home@,
                cleared@,
            );
        }
        let mut app = App {
            rows,
            cursor: None,
            scroll: 0,
            close_hovered: false,
            clear_all_hovered: false,
            should_quit: false,
            detail: None,
            offset,
            home,
            last_key,
            done,
            cleared,
            status: None,
            clock: 0,
            visible_height: 1,
            effects: Vec::new(),
        };
        proof {
            assert(effects_view(app.effects@) =~= Seq::<EffectView>::empty());
        }
        app.jump_to_latest();
        app
    }

    /// The byte offset in the log up to which lines have been read.
    pub fn log_offset(&self) -> (r: u64)
        ensures
            r == self.offset_of(),
    {
        self.offset
    }

    /// Whether the command with this key has been marked done.
    pub fn is_done(&self, key: &str) -> (r: bool)
        ensures
            r == self.done_set().contains(key@),
    {
        let k = key.to_owned();
        self.done.contains(&k)
    }

    /// Records the event loop's clock (milliseconds); the feedback message expires by it.
    pub fn set_clock(&mut self, now_ms: u64)
        ensures
            final(self).clock_of() == now_ms,
            final(self).rows_v() == old(self).rows_v(),
            final(self).cursor_v() == old(self).cursor_v(),
            final(self).scroll_v() == old(self).scroll_v(),
            final(self).status_of() == old(self).status_of(),
            final(self).pending() == old(self).pending(),
            final(self).wf() == old(self).wf(),
            final(self).height() == old(self).height(),
            final(self).done_set() == old(self).done_set(),
            final(self).cleared_set() == old(self).cleared_set(),
            final(self).offset_of() == old(self).offset_of(),
            final(self).group_of() == old(self).group_of(),
            final(self).home_of() == old(self).home_of(),
            final(self).should_quit_v() == old(self).should_quit_v(),
            final(self).close_hovered_v() == old(self).close_hovered_v(),
            final(self).clear_all_hovered_v() == old(self).clear_all_hovered_v(),
            final(self).detail_v() == old(self).detail_v(),
    {
        self.clock = now_ms;
    }

    /// Called every frame with the list area's height; re-clamps the scroll only when the
    /// height actually changed, so it never undoes an independent scroll-wheel movement.
    pub fn set_visible_height(&mut self, height: usize)
        requires
            old(self).wf(),
        ensures
            final(self).wf(),
            final(self).height() == (if height > 1 {
                height as int
            } else {
                1
            }),
            final(self).scroll_v() == (if final(self).height() != old(self).height() {
                visible_scroll(
                    old(self).scroll_v() as int,
                    final(self).height(),
                    old(self).cursor_v(),
                    old(self).rows_v().len() as int,
                )
            } else {
                old(self).scroll_v() as int
            }),
            final(self).cursor_v() == old(self).cursor_v(),
            final(self).rows_v() == old(self).rows_v(),
            final(self).status_of() == old(self).status_of(),
            final(self).same_context(*old(self)),
            final(self).pending() == old(self).pending(),
    {
        let height = if height > 1 {
            height
        } else {
            1
        };
        if height != self.visible_height {
            self.visible_height = height;
            self.ensure_cursor_visible();
        }
    }

    /// The feedback message, while it is younger than `STATUS_TTL_MS`.
    pub fn status_text(&self) -> (r: Option<&str>)
        ensures
            match r {
                Some(s) => self.shown_status() == Some(s@),
                None => self.shown_status() is None,
            },
    {
        match &self.status {
            Some(p) => {
                if self.clock <= p.1 || self.clock - p.1 < STATUS_TTL_MS {
                    Some(p.0.as_str())
                } else {
                    None
                }
            },
            None => None,
        }
    }

    fn set_status(&mut self, msg: String)
        ensures
            final(self).status_of() == Some((msg@, old(self).clock_of())),
            final(self).rows_v() == old(self).rows_v(),
            final(self).cursor_v() == old(self).cursor_v(),
            final(self).scroll_v() == old(self).scroll_v(),
            final(self).same_context(*old(self)),
            final(self).pending() == old(self).pending(),
            final(self).wf() == old(self).wf(),
            final(self).height() == old(self).height(),
    {
        self.status = Some((msg, self.clock));
    }

    /// The indices of the item rows, in order.
    fn activatable_rows(&self) -> (r: Vec<usize>)
        ensures
            r@ == item_indices(self.rows_v()),
    {
        let ghost rv = self.rows_v();
        let mut r: Vec<usize> = Vec::new();
        let mut i: usize = 0;
        proof {
            assert(rv.take(0) =~= Seq::<RowView>::empty());
        }
        while i < self.rows.len()
            invariant
                i <= self.rows@.len(),
                rv == rows_view(self.rows@),
                r@ == item_indices(rv.take(i as int)),
            decreases self.rows@.len() - i,
        {
            proof {
                assert(rv.take(i + 1).drop_last() =~= rv.take(i as int));
                assert(rv.take(i + 1).last() == self.rows@[i as int]@);
            }
            match &self.rows[i] {
                Row::FileItem { .. } => r.push(i),
                Row::CommandItem { .. } => r.push(i),
                _ => {},
            }
            i += 1;
        }
        proof {
            assert(rv.take(self.rows@.len() as int) =~= rv);
        }
        r
    }

    /// Brings the cursor into view and clamps the scroll so the list area stays filled.
    fn ensure_cursor_visible(&mut self)
        requires
            old(self).wf(),
        ensures
            final(self).scroll_v() == visible_scroll(
                old(self).scroll_v() as int,
                old(self).height(),
                old(self).cursor_v(),
                old(self).rows_v().len() as int,
            ),
            final(self).cursor_v() == old(self).cursor_v(),
            final(self).rows_v() == old(self).rows_v(),
            final(self).wf(),
            final(self).height() == old(self).height(),
            final(self).status_of() == old(self).status_of(),
            final(self).same_context(*old(self)),
            final(self).pending() == old(self).pending(),
    {
        let visible_height = self.visible_height;
        if let Some(cursor) = self.cursor {
            if cursor < self.scroll {
                self.scroll = cursor;
            } else if cursor - self.scroll >= visible_height {
                self.scroll = cursor - (visible_height - 1);
            }
        }
        let max_scroll = self.rows.len().saturating_sub(visible_height);
        if self.scroll > max_scroll {
            self.scroll = max_scroll;
        }
    }

    /// Puts the cursor on the newest item (or nowhere) and brings it into view.
    fn jump_to_latest(&mut self)
        requires
            old(self).wf(),
        ensures
            final(self).cursor_v() == last_item(old(self).rows_v()),
            final(self).scroll_v() == visible_scroll(
                old(self).scroll_v() as int,
                old(self).height(),
                final(self).cursor_v(),
                old(self).rows_v().len() as int,
            ),
            final(self).rows_v() == old(self).rows_v(),
            final(self).wf(),
            final(self).height() == old(self).height(),
            final(self).status_of() == old(self).status_of(),
            final(self).same_context(*old(self)),
            final(self).pending() == old(self).pending(),
    {
        let items = self.activatable_rows();
        if items.len() > 0 {
            self.cursor = Some(items[items.len() - 1]);
        } else {
            self.cursor = None;
        }
        self.ensure_cursor_visible();
    }

    /// The change `move_cursor` makes: the cursor moves `delta` items, clamped, and is brought into view.
    pub open spec fn moved_cursor(before: App, after: App, delta: isize) -> bool {
        &&& (after.wf())
        &&& (item_indices(before.rows_v()).len() == 0 ==> after.cursor_v() == before.cursor_v() && after.scroll_v() == before.scroll_v())
        &&& (item_indices(before.rows_v()).len() > 0 ==> {
            let items = item_indices(before.rows_v());
            &&& after.cursor_v() == Some(
                items[clamp(
                    cursor_slot(items, before.cursor_v()) + delta,
                    0,
                    items.len() - 1,
                )],
            )
            &&& after.scroll_v() == visible_scroll(
                before.scroll_v() as int,
                before.height(),
                after.cursor_v(),
                before.rows_v().len() as int,
            )
        })
        &&& (after.rows_v() == before.rows_v())
        &&& (after.height() == before.height())
        &&& (after.status_of() == before.status_of())
        &&& (after.same_context(before))
        &&& (after.pending() == before.pending())
    }

    /// Moves the cursor `delta` items up or down, clamped to the first and last item;
    /// only ever lands on items. Does nothing when there are none.
    pub fn move_cursor(&mut self, delta: isize)
        requires
            old(self).wf(),
        ensures
            Self::moved_cursor(*old(self), *final(self), delta),
    {
        let items = self.activatable_rows();
        if items.len() == 0 {
            return;
        }
        let mut current: usize = 0;
        if let Some(c) = self.cursor {
            let mut j: usize = 0;
            while j < items.len() && items[j] != c
                invariant
                    j <= items@.len(),
                    forall|k: int| 0 <= k < j ==> items@[k] != c,
                decreases items@.len() - j,
            {
                j += 1;
            }
            if j < items.len() {
                proof {
                    lemma_slot_at(items@, c, j as int);
                }
                current = j;
            } else {
                proof {
                    lemma_slot_none(items@, c);
                }
            }
        }
        let last = items.len() - 1;
        let next: usize = if delta < 0 {
            let mag: usize = (-(delta + 1)) as usize + 1;
            if mag >= current {
                0
            } else {
                current - mag
            }
        } else {
            let d = delta as usize;
            if d >= last - current {
                last
            } else {
                current + d
            }
        };
        self.cursor = Some(items[next]);
        self.ensure_cursor_visible();
    }

    /// The change `scroll_by` makes: only the view moves, clamped.
    pub open spec fn scrolled(before: App, after: App, delta: isize) -> bool {
        &&& (after.scroll_v() == clamp(
            before.scroll_v() + delta,
            0,
            max_scroll(before.rows_v().len() as int, before.height()),
        ))
        &&& (after.cursor_v() == before.cursor_v())
        &&& (after.wf())
        &&& (after.rows_v() == before.rows_v())
        &&& (after.height() == before.height())
        &&& (after.status_of() == before.status_of())
        &&& (after.same_context(before))
        &&& (after.pending() == before.pending())
    }

    /// A scroll-wheel tick moves the view only, clamped to the rows there are; it never
    /// touches the cursor.
    pub fn scroll_by(&mut self, delta: isize)
        requires
            old(self).wf(),
        ensures
            Self::scrolled(*old(self), *final(self), delta),
    {
        let max_scroll = self.rows.len().saturating_sub(self.visible_height);
        let next: usize = if delta < 0 {
            let mag: usize = (-(delta + 1)) as usize + 1;
            let down = if mag >= self.scroll {
                0
            } else {
                self.scroll - mag
            };
            if down > max_scroll {
                max_scroll
            } else {
                down
            }
        } else {
            let d = delta as usize;
            if self.scroll >= max_scroll || d >= max_scroll - self.scroll {
                max_scroll
            } else {
                self.scroll + d
            }
        };
        self.scroll = next;
    }

    /// Marks a command done; a key not already marked is queued for the done file. The row
    /// stays in view.
    fn mark_done(&mut self, key: &String)
        ensures
            final(self).done_set() == old(self).done_set().insert(key@),
            final(self).pending() == (if old(self).done_set().contains(key@) {
                old(self).pending()
            } else {
                old(self).pending().push(EffectView::MarkDone(key@))
            }),
            final(self).rows_v() == old(self).rows_v(),
            final(self).cursor_v() == old(self).cursor_v(),
            final(self).scroll_v() == old(self).scroll_v(),
            final(self).status_of() == old(self).status_of(),
            final(self).wf() == old(self).wf(),
            final(self).height() == old(self).height(),
            final(self).offset_of() == old(self).offset_of(),
            final(self).group_of() == old(self).group_of(),
            final(self).home_of() == old(self).home_of(),
            final(self).cleared_set() == old(self).cleared_set(),
            final(self).clock_of() == old(self).clock_of(),
            final(self).should_quit_v() == old(self).should_quit_v(),
            final(self).close_hovered_v() == old(self).close_hovered_v(),
            final(self).clear_all_hovered_v() == old(self).clear_all_hovered_v(),
            final(self).detail_v() == old(self).detail_v(),
    {
        if self.done.insert(key.clone()) {
            let ghost before = self.effects@;
            self.effects.push(Effect::MarkDone(key.clone()));
            proof {
                assert(effects_view(self.effects@) =~= effects_view(before).push(
                    EffectView::MarkDone(key@),
                ));
            }
        }
    }

    /// The rows without the item keyed `key`.
    fn rows_without_key(rows: &Vec<Row>, key: &String) -> (r: Vec<Row>)
        ensures
            rows_view(r@) == drop_key(rows_view(rows@), key@),
    {
        let ghost rv = rows_view(rows@);
        let mut out: Vec<Row> = Vec::new();
        let mut i: usize = 0;
        proof {
            assert(rv.take(0) =~= Seq::<RowView>::empty());
            assert(rows_view(out@) =~= Seq::<RowView>::empty());
        }
        while i < rows.len()
            invariant
                i <= rows@.len(),
                rv == rows_view(rows@),
                rows_view(out@) == drop_key(rv.take(i as int), key@),
            decreases rows@.len() - i,
        {
            proof {
                assert(rv.take(i + 1).drop_last() =~= rv.take(i as int));
                assert(rv.take(i + 1).last() == rows@[i as int]@);
            }
            let matches = match &rows[i] {
                Row::FileItem { key: k, .. } => *k == *key,
                Row::CommandItem { key: k, .. } => *k == *key,
                _ => false,
            };
            if !matches {
                let ghost before = rows_view(out@);
                out.push(copy_row(&rows[i]));
                proof {
                    assert(rows_view(out@) =~= before.push(rows@[i as int]@));
                }
            }
            i += 1;
        }
        proof {
            assert(rv.take(rows@.len() as int) =~= rv);
        }
        out
    }

    /// The rows without the items whose keys are marked cleared.
    fn rows_without_cleared(rows: &Vec<Row>, cleared: &MarkSet) -> (r: Vec<Row>)
        ensures
            rows_view(r@) == drop_cleared(rows_view(rows@), cleared@),
    {
        let ghost rv = rows_view(rows@);
        let mut out: Vec<Row> = Vec::new();
        let mut i: usize = 0;
        proof {
            assert(rv.take(0) =~= Seq::<RowView>::empty());
            assert(rows_view(out@) =~= Seq::<RowView>::empty());
        }
        while i < rows.len()
            invariant
                i <= rows@.len(),
                rv == rows_view(rows@),
                rows_view(out@) == drop_cleared(rv.take(i as int), cleared@),
            decreases rows@.len() - i,
        {
            proof {
                assert(rv.take(i + 1).drop_last() =~= rv.take(i as int));
                assert(rv.take(i + 1).last() == rows@[i as int]@);
            }
            let gone = match &rows[i] {
                Row::FileItem { key, .. } => cleared.contains(key),
                Row::CommandItem { key, .. } => cleared.contains(key),
                _ => false,
            };
            if !gone {
                let ghost before = rows_view(out@);
                out.push(copy_row(&rows[i]));
                proof {
                    assert(rows_view(out@) =~= before.push(rows@[i as int]@));
                }
            }
            i += 1;
        }
        proof {
            assert(rv.take(rows@.len() as int) =~= rv);
        }
        out
    }

    /// Marks an item dismissed and drops it from the rows at once (unlike `mark_done`,
    /// which keeps the row visible); a key not already marked is queued for the file.
    fn mark_cleared(&mut self, key: &String)
        ensures
            (final(self).rows_v(), final(self).cleared_set(), final(self).pending()) == clear_one(
                (old(self).rows_v(), old(self).cleared_set(), old(self).pending()),
                key@,
            ),
            final(self).cursor_v() == old(self).cursor_v(),
            final(self).scroll_v() == old(self).scroll_v(),
            final(self).status_of() == old(self).status_of(),
            old(self).wf() ==> final(self).wf(),
            final(self).height() == old(self).height(),
            final(self).offset_of() == old(self).offset_of(),
            final(self).group_of() == old(self).group_of(),
            final(self).home_of() == old(self).home_of(),
            final(self).done_set() == old(self).done_set(),
            final(self).clock_of() == old(self).clock_of(),
            final(self).should_quit_v() == old(self).should_quit_v(),
            final(self).close_hovered_v() == old(self).close_hovered_v(),
            final(self).clear_all_hovered_v() == old(self).clear_all_hovered_v(),
            final(self).detail_v() == old(self).detail_v(),
    {
        if self.cleared.insert(key.clone()) {
            let ghost before = self.effects@;
            self.effects.push(Effect::MarkCleared(key.clone()));
            proof {
                assert(effects_view(self.effects@) =~= effects_view(before).push(
                    EffectView::MarkCleared(key@),
                ));
            }
        }
        let ghost old_rows = self.rows_v();
        self.rows = Self::rows_without_key(&self.rows, key);
        proof {
            crate::laws::lemma_drop_key(old_rows, key@);
            let r = self.rows_v();
            if shows_no_cleared(old_rows, old(self).cleared@) {
                assert forall|i: int| 0 <= i < r.len() implies !is_cleared_row(
                    #[trigger] r[i],
                    self.cleared@,
                ) by {
                    assert(old_rows.contains(r[i]));
                    let j = choose|j: int| 0 <= j < old_rows.len() && old_rows[j] == r[i];
                    assert(!is_cleared_row(old_rows[j], old(self).cleared@));
                    assert(key_of(r[i]) != Some(key@));
                }
            }
        }
    }

    /// Drops every group header left with no item under it, and the blank line before it,
    /// so clearing a section never leaves an orphaned timestamp/repo line behind.
    fn prune_empty_groups(&mut self)
        ensures
            final(self).rows_v() == prune_spec(old(self).rows_v()),
            final(self).cursor_v() == old(self).cursor_v(),
            final(self).scroll_v() == old(self).scroll_v(),
            final(self).status_of() == old(self).status_of(),
            final(self).pending() == old(self).pending(),
            old(self).wf() ==> final(self).wf(),
            final(self).height() == old(self).height(),
            final(self).same_context(*old(self)),
    {
        let ghost rv = self.rows_v();
        let n = self.rows.len();
        let mut keep: Vec<bool> = Vec::new();
        let mut i: usize = 0;
        while i < n
            invariant
                i <= n,
                keep@.len() == i,
                forall|j: int| 0 <= j < i ==> keep@[j],
            decreases n - i,
        {
            keep.push(true);
            i += 1;
        }
        i = 0;
        while i < n
            invariant
                n == self.rows@.len(),
                rv == rows_view(self.rows@),
                i <= n,
                keep@.len() == n,
                forall|j: int|
                    0 <= j < n ==> #[trigger] keep@[j] == (!(j < i && header_empty(rv, j)) && !(
                    j + 1 < i && rv[j] is Blank && header_empty(rv, j + 1))),
            decreases n - i,
        {
            let is_header = match &self.rows[i] {
                Row::GroupHeader { .. } => true,
                _ => false,
            };
            if is_header {
                let has_items = i + 1 < n && match &self.rows[i + 1] {
                    Row::FileItem { .. } => true,
                    Row::CommandItem { .. } => true,
                    _ => false,
                };
                proof {
                    assert(rv[i as int] == self.rows@[i as int]@);
                    if i + 1 < n {
                        assert(rv[i + 1] == self.rows@[i + 1]@);
                    }
                }
                if !has_items {
                    keep.set(i, false);
                    if i > 0 {
                        let prev_blank = match &self.rows[i - 1] {
                            Row::Blank => true,
                            _ => false,
                        };
                        proof {
                            assert(rv[i - 1] == self.rows@[i - 1]@);
                        }
                        if prev_blank {
                            keep.set(i - 1, false);
                        }
                    }
                }
            } else {
                proof {
                    assert(rv[i as int] == self.rows@[i as int]@);
                }
            }
            i += 1;
        }
        let mut out: Vec<Row> = Vec::new();
        let mut k: usize = 0;
        proof {
            assert(rows_view(out@) =~= Seq::<RowView>::empty());
        }
        while k < n
            invariant
                n == self.rows@.len(),
                rv == rows_view(self.rows@),
                k <= n,
                keep@.len() == n,
                forall|j: int| 0 <= j < n ==> #[trigger] keep@[j] == kept_by_prune(rv, j),
                rows_view(out@) == prune_upto(rv, k as int),
            decreases n - k,
        {
            if keep[k] {
                let ghost before = rows_view(out@);
                out.push(copy_row(&self.rows[k]));
                proof {
                    assert(rows_view(out@) =~= before + seq![rv[k as int]]);
                }
            } else {
                proof {
                    assert(prune_upto(rv, k + 1) =~= prune_upto(rv, k as int));
                }
            }
            k += 1;
        }
        self.rows = out;
        proof {
            assert(self.rows_v() == prune_spec(rv));
            crate::laws::law_pruned_headers_have_items(rv);
            if shows_no_cleared(rv, self.cleared@) {
                lemma_rows_within(self.rows_v(), rv, self.cleared@);
            }
        }
    }

    /// Clears each key in turn (see `clear_keys`).
    fn clear_all_keys(&mut self, keys: &Vec<String>)
        ensures
            (final(self).rows_v(), final(self).cleared_set(), final(self).pending())
                == clear_keys(
                (old(self).rows_v(), old(self).cleared_set(), old(self).pending()),
                keys@.map_values(|k: String| k@),
            ),
            final(self).cursor_v() == old(self).cursor_v(),
            final(self).scroll_v() == old(self).scroll_v(),
            final(self).status_of() == old(self).status_of(),
            old(self).wf() ==> final(self).wf(),
            final(self).height() == old(self).height(),
            final(self).offset_of() == old(self).offset_of(),
            final(self).group_of() == old(self).group_of(),
            final(self).home_of() == old(self).home_of(),
            final(self).done_set() == old(self).done_set(),
            final(self).clock_of() == old(self).clock_of(),
            final(self).should_quit_v() == old(self).should_quit_v(),
            final(self).close_hovered_v() == old(self).close_hovered_v(),
            final(self).clear_all_hovered_v() == old(self).clear_all_hovered_v(),
            final(self).detail_v() == old(self).detail_v(),
    {
        let ghost kv = keys@.map_values(|k: String| k@);
        let ghost st = (self.rows_v(), self.cleared_set(), self.pending());
        let ghost s0 = *self;
        let mut i: usize = 0;
        proof {
            assert(kv.take(0) =~= Seq::<Seq<char>>::empty());
        }
        while i < keys.len()
            invariant
                i <= keys@.len(),
                kv == keys@.map_values(|k: String| k@),
                (self.rows_v(), self.cleared_set(), self.pending()) == clear_keys(
                    st,
                    kv.take(i as int),
                ),
                self.cursor_v() == s0.cursor_v(),
                self.scroll_v() == s0.scroll_v(),
                self.status_of() == s0.status_of(),
                s0.wf() ==> self.wf(),
                self.height() == s0.height(),
                self.offset_of() == s0.offset_of(),
                self.group_of() == s0.group_of(),
                self.home_of() == s0.home_of(),
                self.done_set() == s0.done_set(),
                self.clock_of() == s0.clock_of(),
                self.should_quit_v() == s0.should_quit_v(),
                self.close_hovered_v() == s0.close_hovered_v(),
                self.clear_all_hovered_v() == s0.clear_all_hovered_v(),
                self.detail_v() == s0.detail_v(),
            decreases keys@.len() - i,
        {
            proof {
                assert(kv.take(i + 1).drop_last() =~= kv.take(i as int));
                assert(kv.take(i + 1).last() == keys@[i as int]@);
            }
            self.mark_cleared(&keys[i]);
            i += 1;
        }
        proof {
            assert(kv.take(keys@.len() as int) =~= kv);
        }
    }

    /// The keys of the run of items starting at row `j`.
    fn collect_run_keys(&self, j: usize) -> (r: Vec<String>)
        ensures
            r@.map_values(|k: String| k@) == run_keys(self.rows_v(), j as int),
    {
        let ghost rv = self.rows_v();
        let n = self.rows.len();
        let mut out: Vec<String> = Vec::new();
        let mut i = j;
        proof {
            assert(out@.map_values(|k: String| k@) =~= Seq::<Seq<char>>::empty());
            assert(Seq::<Seq<char>>::empty() + run_keys(rv, j as int) =~= run_keys(rv, j as int));
        }
        while i < n
            invariant
                n == self.rows@.len(),
                rv == rows_view(self.rows@),
                j <= i,
                out@.map_values(|k: String| k@) + run_keys(rv, i as int) == run_keys(rv, j as int),
            decreases n - i,
        {
            proof {
                assert(rv[i as int] == self.rows@[i as int]@);
            }
            let key = match &self.rows[i] {
                Row::FileItem { key, .. } => key.clone(),
                Row::CommandItem { key, .. } => key.clone(),
                _ => {
                    proof {
                        assert(run_keys(rv, i as int) =~= Seq::<Seq<char>>::empty());
                        assert(out@.map_values(|k: String| k@) + Seq::<Seq<char>>::empty()
                            =~= out@.map_values(|k: String| k@));
                    }
                    return out;
                },
            };
            let ghost before = out@.map_values(|k: String| k@);
            out.push(key);
            proof {
                assert(out@.map_values(|k: String| k@) =~= before.push(key@));
                assert(before + run_keys(rv, i as int) =~= before.push(key@) + run_keys(
                    rv,
                    i + 1,
                ));
            }
            i += 1;
        }
        proof {
            assert(run_keys(rv, i as int) =~= Seq::<Seq<char>>::empty());
            assert(out@.map_values(|k: String| k@) + Seq::<Seq<char>>::empty()
                =~= out@.map_values(|k: String| k@));
        }
        out
    }

    /// Dismisses the item at row `idx`, or - on a group header - every item in that
    /// section; then prunes emptied headers and puts the cursor on the newest item. A blank
    /// row, or an index past the end, changes nothing.
    fn clear_row_at(&mut self, idx: usize)
        requires
            old(self).wf(),
        ensures
            final(self).wf(),
            match keys_cleared_at(old(self).rows_v(), idx as int) {
                None => {
                    &&& final(self).rows_v() == old(self).rows_v()
                    &&& final(self).cleared_set() == old(self).cleared_set()
                    &&& final(self).pending() == old(self).pending()
                    &&& final(self).cursor_v() == old(self).cursor_v()
                    &&& final(self).scroll_v() == old(self).scroll_v()
                },
                Some(keys) => {
                    let c = clear_keys(
                        (old(self).rows_v(), old(self).cleared_set(), old(self).pending()),
                        keys,
                    );
                    &&& final(self).rows_v() == prune_spec(c.0)
                    &&& final(self).cleared_set() == c.1
                    &&& final(self).pending() == c.2
                    &&& final(self).cursor_v() == last_item(final(self).rows_v())
                    &&& final(self).scroll_v() == visible_scroll(
                        old(self).scroll_v() as int,
                        old(self).height(),
                        final(self).cursor_v(),
                        final(self).rows_v().len() as int,
                    )
                },
            },
            final(self).status_of() == old(self).status_of(),
            final(self).height() == old(self).height(),
            final(self).offset_of() == old(self).offset_of(),
            final(self).group_of() == old(self).group_of(),
            final(self).home_of() == old(self).home_of(),
            final(self).done_set() == old(self).done_set(),
            final(self).clock_of() == old(self).clock_of(),
            final(self).should_quit_v() == old(self).should_quit_v(),
            final(self).close_hovered_v() == old(self).close_hovered_v(),
            final(self).clear_all_hovered_v() == old(self).clear_all_hovered_v(),
            final(self).detail_v() == old(self).detail_v(),
    {
        if idx >= self.rows.len() {
            return;
        }
        let ghost rv = self.rows_v();
        proof {
            assert(rv[idx as int] == self.rows@[idx as int]@);
        }
        let keys: Vec<String> = match &self.rows[idx] {
            Row::FileItem { key, .. } => {
                let mut v: Vec<String> = Vec::new();
                v.push(key.clone());
                proof {
                    assert(v@.map_values(|k: String| k@) =~= seq![key@]);
                }
                v
            },
            Row::CommandItem { key, .. } => {
                let mut v: Vec<String> = Vec::new();
                v.push(key.clone());
                proof {
                    assert(v@.map_values(|k: String| k@) =~= seq![key@]);
                }
                v
            },
            Row::GroupHeader { .. } => self.collect_run_keys(idx + 1),
            Row::Blank => return,
        };
        self.clear_all_keys(&keys);
        self.prune_empty_groups();
        self.jump_to_latest();
    }

    /// The change `clear_cursor` makes: the row or section at the cursor is cleared.
    pub open spec fn cleared_at_cursor(before: App, after: App) -> bool {
        &&& (after.wf())
        &&& (match before.cursor_v() {
            Some(c) => match keys_cleared_at(before.rows_v(), c as int) {
                None => {
                    &&& after.rows_v() == before.rows_v()
                    &&& after.cleared_set() == before.cleared_set()
                    &&& after.pending() == before.pending()
                    &&& after.cursor_v() == before.cursor_v()
                    &&& after.scroll_v() == before.scroll_v()
                },
                Some(keys) => {
                    let c = clear_keys(
                        (before.rows_v(), before.cleared_set(), before.pending()),
                        keys,
                    );
                    &&& after.rows_v() == prune_spec(c.0)
                    &&& after.cleared_set() == c.1
                    &&& after.pending() == c.2
                    &&& after.cursor_v() == last_item(after.rows_v())
                    &&& after.scroll_v() == visible_scroll(
                        before.scroll_v() as int,
                        before.height(),
                        after.cursor_v(),
                        after.rows_v().len() as int,
                    )
                },
            },
            None => {
                &&& after.rows_v() == before.rows_v()
                &&& after.cleared_set() == before.cleared_set()
                &&& after.pending() == before.pending()
                &&& after.cursor_v() == before.cursor_v()
                &&& after.scroll_v() == before.scroll_v()
            },
        })
        &&& (after.status_of() == before.status_of())
        &&& (after.height() == before.height())
        &&& (after.offset_of() == before.offset_of())
        &&& (after.group_of() == before.group_of())
        &&& (after.home_of() == before.home_of())
        &&& (after.done_set() == before.done_set())
        &&& (after.clock_of() == before.clock_of())
        &&& (after.should_quit_v() == before.should_quit_v())
        &&& (after.close_hovered_v() == before.close_hovered_v())
        &&& (after.clear_all_hovered_v() == before.clear_all_hovered_v())
        &&& (after.detail_v() == before.detail_v())
    }

    /// Backspace/Delete: dismisses the item at the cursor, or every item of the section
    /// when the cursor is on a group header (see `clear_row_at`).
    pub fn clear_cursor(&mut self)
        requires
            old(self).wf(),
        ensures
            Self::cleared_at_cursor(*old(self), *final(self)),
    {
        if let Some(idx) = self.cursor {
            self.clear_row_at(idx);
        }
    }

    /// The change `toggle_done_cursor` makes: the command at the cursor is marked done.
    pub open spec fn toggled_done(before: App, after: App) -> bool {
        &&& (match command_key_at(before.rows_v(), before.cursor_v()) {
            Some(k) => (after.done_set(), after.pending()) == mark_done_spec(
                before.done_set(),
                before.pending(),
                k,
            ),
            None => after.done_set() == before.done_set() && after.pending()
                == before.pending(),
        })
        &&& (after.rows_v() == before.rows_v())
        &&& (after.cursor_v() == before.cursor_v())
        &&& (after.scroll_v() == before.scroll_v())
        &&& (after.status_of() == before.status_of())
        &&& (after.wf() == before.wf())
        &&& (after.height() == before.height())
        &&& (after.offset_of() == before.offset_of())
        &&& (after.group_of() == before.group_of())
        &&& (after.home_of() == before.home_of())
        &&& (after.cleared_set() == before.cleared_set())
        &&& (after.clock_of() == before.clock_of())
        &&& (after.should_quit_v() == before.should_quit_v())
        &&& (after.close_hovered_v() == before.close_hovered_v())
        &&& (after.clear_all_hovered_v() == before.clear_all_hovered_v())
        &&& (after.detail_v() == before.detail_v())
    }

    /// Space or `d`: marks the command at the cursor done. Does nothing on any other row,
    /// and never changes the rows.
    pub fn toggle_done_cursor(&mut self)
        ensures
            Self::toggled_done(*old(self), *final(self)),
    {
        if let Some(c) = self.cursor {
            if c < self.rows.len() {
                proof {
                    assert(self.rows_v()[c as int] == self.rows@[c as int]@);
                }
                let key = match &self.rows[c] {
                    Row::CommandItem { key, .. } => Some(key.clone()),
                    _ => None,
                };
                if let Some(k) = key {
                    self.mark_done(&k);
                }
            }
        }
    }

    /// What activating a row asks for (see `activation_effect`).
    fn plan_activation(row: &Row) -> (r: Option<Effect>)
        ensures
            match r {
                Some(e) => activation_effect(row@) == Some(e@),
                None => activation_effect(row@) is None,
            },
    {
        match row {
            Row::FileItem { abspath: Some(path), .. } => Some(Effect::OpenFile(path.clone())),
            Row::CommandItem { command, .. } => Some(Effect::CopyCommand(command.clone())),
            _ => None,
        }
    }

    /// Queues the activation; copying a command also leaves "Copied to clipboard" behind
    /// and opens the command full-screen (opening a file reports back through
    /// `file_opened`).
    fn run_activation(&mut self, e: Effect)
        ensures
            final(self).pending() == old(self).pending().push(e@),
            final(self).status_of() == (if e@ is CopyCommand {
                Some(("Copied to clipboard"@, old(self).clock_of()))
            } else {
                old(self).status_of()
            }),
            final(self).detail_v() == detail_after(e@, old(self).detail_v()),
            final(self).rows_v() == old(self).rows_v(),
            final(self).cursor_v() == old(self).cursor_v(),
            final(self).scroll_v() == old(self).scroll_v(),
            final(self).wf() == old(self).wf(),
            final(self).height() == old(self).height(),
            final(self).same_setting(*old(self)),
    {
        let shown = match &e {
            Effect::CopyCommand(c) => Some(c.clone()),
            _ => None,
        };
        let ghost before = self.effects@;
        self.effects.push(e);
        proof {
            assert(effects_view(self.effects@) =~= effects_view(before).push(e@));
        }
        if let Some(c) = shown {
            self.set_status("Copied to clipboard".to_owned());
            self.detail = Some(c);
        }
    }

    /// The change `activate_cursor` makes: the open or copy for the row at the cursor is queued.
    pub open spec fn activated(before: App, after: App) -> bool {
        &&& (match before.cursor_v() {
            Some(c) => if c < before.rows_v().len() {
                match activation_effect(before.rows_v()[c as int]) {
                    Some(e) => {
                        &&& after.pending() == before.pending().push(e)
                        &&& after.status_of() == (if e is CopyCommand {
                            Some(("Copied to clipboard"@, before.clock_of()))
                        } else {
                            before.status_of()
                        })
                        &&& after.detail_v() == detail_after(e, before.detail_v())
                    },
                    None => after.pending() == before.pending()
                        && after.status_of() == before.status_of()
                        && after.detail_v() == before.detail_v(),
                }
            } else {
                after.pending() == before.pending() && after.status_of()
                    == before.status_of() && after.detail_v() == before.detail_v()
            },
            None => after.pending() == before.pending() && after.status_of()
                == before.status_of() && after.detail_v() == before.detail_v(),
        })
        &&& (after.rows_v() == before.rows_v())
        &&& (after.cursor_v() == before.cursor_v())
        &&& (after.scroll_v() == before.scroll_v())
        &&& (after.wf() == before.wf())
        &&& (after.height() == before.height())
        &&& (after.same_setting(before))
    }

    /// Enter: opens the file or copies the command at the cursor; nothing on other rows.
    pub fn activate_cursor(&mut self)
        ensures
            Self::activated(*old(self), *final(self)),
    {
        if let Some(c) = self.cursor {
            if c < self.rows.len() {
                proof {
                    assert(self.rows_v()[c as int] == self.rows@[c as int]@);
                }
                if let Some(e) = Self::plan_activation(&self.rows[c]) {
                    self.run_activation(e);
                }
            }
        }
    }

    /// The change `click_row` makes: clear, mark done, or activate, by column.
    pub open spec fn clicked_row(before: App, after: App, row_idx: usize, local_col: u16, list_width: u16) -> bool {
        &&& (after.wf())
        &&& (local_col + 1 >= list_width ==> match keys_cleared_at(
            before.rows_v(),
            row_idx as int,
        ) {
            None => {
                &&& after.rows_v() == before.rows_v()
                &&& after.cleared_set() == before.cleared_set()
                &&& after.pending() == before.pending()
                &&& after.cursor_v() == before.cursor_v()
                &&& after.scroll_v() == before.scroll_v()
                &&& after.done_set() == before.done_set()
                &&& after.status_of() == before.status_of()
                &&& after.detail_v() == before.detail_v()
            },
            Some(keys) => {
                let c = clear_keys(
                    (before.rows_v(), before.cleared_set(), before.pending()),
                    keys,
                );
                &&& after.rows_v() == prune_spec(c.0)
                &&& after.cleared_set() == c.1
                &&& after.pending() == c.2
                &&& after.cursor_v() == last_item(after.rows_v())
                &&& after.scroll_v() == visible_scroll(
                    before.scroll_v() as int,
                    before.height(),
                    after.cursor_v(),
                    after.rows_v().len() as int,
                )
                &&& after.done_set() == before.done_set()
                &&& after.status_of() == before.status_of()
                &&& after.detail_v() == before.detail_v()
            },
        })
        &&& (local_col + 1 < list_width ==> {
            &&& after.rows_v() == before.rows_v()
            &&& after.cleared_set() == before.cleared_set()
            &&& after.cursor_v() == before.cursor_v()
            &&& after.scroll_v() == before.scroll_v()
            &&& if row_idx < before.rows_v().len() {
                let row = before.rows_v()[row_idx as int];
                if row is CommandItem && local_col < CHECKBOX_END_COL {
                    &&& (after.done_set(), after.pending()) == mark_done_spec(
                        before.done_set(),
                        before.pending(),
                        key_of(row).unwrap(),
                    )
                    &&& after.status_of() == before.status_of()
                    &&& after.detail_v() == before.detail_v()
                } else {
                    &&& after.done_set() == before.done_set()
                    &&& match activation_effect(row) {
                        Some(e) => {
                            &&& after.pending() == before.pending().push(e)
                            &&& after.status_of() == (if e is CopyCommand {
                                Some(("Copied to clipboard"@, before.clock_of()))
                            } else {
                                before.status_of()
                            })
                            &&& after.detail_v() == detail_after(
                                e,
                                before.detail_v(),
                            )
                        },
                        None => after.pending() == before.pending()
                            && after.status_of() == before.status_of()
                            && after.detail_v() == before.detail_v(),
                    }
                }
            } else {
                &&& after.done_set() == before.done_set()
                &&& after.pending() == before.pending()
                &&& after.status_of() == before.status_of()
                &&& after.detail_v() == before.detail_v()
            }
        })
        &&& (after.height() == before.height())
        &&& (after.offset_of() == before.offset_of())
        &&& (after.group_of() == before.group_of())
        &&& (after.home_of() == before.home_of())
        &&& (after.clock_of() == before.clock_of())
        &&& (after.should_quit_v() == before.should_quit_v())
        &&& (after.close_hovered_v() == before.close_hovered_v())
        &&& (after.clear_all_hovered_v() == before.clear_all_hovered_v())
    }

    /// A mouse click on row `row_idx` at column `local_col` of a list `list_width` wide.
    /// The rightmost column clears the row (or, on a header, its section); a command row's
    /// checkbox columns (before `CHECKBOX_END_COL`) mark it done; anywhere else opens the
    /// file or copies the command.
    pub fn click_row(&mut self, row_idx: usize, local_col: u16, list_width: u16)
        requires
            old(self).wf(),
        ensures
            Self::clicked_row(*old(self), *final(self), row_idx, local_col, list_width),
    {
        if local_col as u32 + 1 >= list_width as u32 {
            self.clear_row_at(row_idx);
            return;
        }
        if row_idx < self.rows.len() {
            proof {
                assert(self.rows_v()[row_idx as int] == self.rows@[row_idx as int]@);
            }
            let done_key = match &self.rows[row_idx] {
                Row::CommandItem { key, .. } => if local_col < CHECKBOX_END_COL {
                    Some(key.clone())
                } else {
                    None
                },
                _ => None,
            };
            match done_key {
                Some(k) => self.mark_done(&k),
                None => {
                    if let Some(e) = Self::plan_activation(&self.rows[row_idx]) {
                        self.run_activation(e);
                    }
                },
            }
        }
    }

    /// The change `click_clear_all` makes: wiping everything is queued.
    pub open spec fn cleared_everything(before: App, after: App) -> bool {
        &&& (after.pending() == before.pending().push(EffectView::ClearAll))
        &&& (after.status_of() == Some(("Cleared everything"@, before.clock_of())))
        &&& (after.rows_v() == before.rows_v())
        &&& (after.cursor_v() == before.cursor_v())
        &&& (after.scroll_v() == before.scroll_v())
        &&& (after.wf() == before.wf())
        &&& (after.height() == before.height())
        &&& (after.same_context(before))
    }

    /// The top "clear" button: asks the event loop to wipe the log and both marks files.
    /// The panel stays open; the next `poll` sees the truncated log and empties the rows.
    pub fn click_clear_all(&mut self)
        ensures
            Self::cleared_everything(*old(self), *final(self)),
    {
        let ghost before = self.effects@;
        self.effects.push(Effect::ClearAll);
        proof {
            assert(effects_view(self.effects@) =~= effects_view(before).push(EffectView::ClearAll));
        }
        self.set_status("Cleared everything".to_owned());
    }

    /// The change `click_close` makes: closing is queued and the panel stops.
    pub open spec fn closing(before: App, after: App) -> bool {
        &&& (after.pending() == before.pending().push(EffectView::Close))
        &&& (after.should_quit_v())
        &&& (after.status_of() == before.status_of())
        &&& (after.rows_v() == before.rows_v())
        &&& (after.cursor_v() == before.cursor_v())
        &&& (after.scroll_v() == before.scroll_v())
        &&& (after.wf() == before.wf())
        &&& (after.height() == before.height())
        &&& (after.offset_of() == before.offset_of())
        &&& (after.group_of() == before.group_of())
        &&& (after.home_of() == before.home_of())
        &&& (after.done_set() == before.done_set())
        &&& (after.cleared_set() == before.cleared_set())
        &&& (after.clock_of() == before.clock_of())
        &&& (after.close_hovered_v() == before.close_hovered_v())
        &&& (after.clear_all_hovered_v() == before.clear_all_hovered_v())
        &&& (after.detail_v() == before.detail_v())
    }

    /// The close button, Esc or `q`: asks the event loop to close the panel and stops it.
    pub fn click_close(&mut self)
        ensures
            Self::closing(*old(self), *final(self)),
    {
        let ghost before = self.effects@;
        self.effects.push(Effect::Close);
        proof {
            assert(effects_view(self.effects@) =~= effects_view(before).push(EffectView::Close));
        }
        self.should_quit = true;
    }

    /// The change `dismiss_detail` makes: the full-screen command view closes.
    pub open spec fn dismissed(before: App, after: App) -> bool {
        &&& (after.detail_v() is None)
        &&& (after.same_setting(before))
        &&& (after.status_of() == before.status_of())
        &&& (after.pending() == before.pending())
        &&& (after.rows_v() == before.rows_v())
        &&& (after.cursor_v() == before.cursor_v())
        &&& (after.scroll_v() == before.scroll_v())
        &&& (after.wf() == before.wf())
        &&& (after.height() == before.height())
    }

    /// Esc or Enter while a command is shown full-screen: closes that view.
    pub fn dismiss_detail(&mut self)
        ensures
            Self::dismissed(*old(self), *final(self)),
    {
        self.detail = None;
    }

    /// The change a pointer move makes: the two button hover flags and the cursor take the
    /// given values; nothing else changes.
    pub open spec fn hovered(
        before: App,
        after: App,
        over_close: bool,
        over_clear_all: bool,
        cursor: Option<usize>,
    ) -> bool {
        &&& after.close_hovered_v() == over_close
        &&& after.clear_all_hovered_v() == over_clear_all
        &&& after.cursor_v() == cursor
        &&& after.rows_v() == before.rows_v()
        &&& after.scroll_v() == before.scroll_v()
        &&& after.status_of() == before.status_of()
        &&& after.pending() == before.pending()
        &&& after.detail_v() == before.detail_v()
        &&& after.height() == before.height()
        &&& after.offset_of() == before.offset_of()
        &&& after.group_of() == before.group_of()
        &&& after.home_of() == before.home_of()
        &&& after.done_set() == before.done_set()
        &&& after.cleared_set() == before.cleared_set()
        &&& after.clock_of() == before.clock_of()
        &&& after.should_quit_v() == before.should_quit_v()
        &&& after.wf() == before.wf()
    }

    /// The list row under screen row `row`: the first visible row plus the offset into
    /// the list area.
    pub open spec fn row_under(scroll: usize, areas: PanelAreas, row: u16) -> int {
        scroll + (row - areas.list.y)
    }

    /// What an input does. While a command is shown full-screen over the list, Esc or Enter
    /// closes that view, the close and "clear" buttons above it still work and light up
    /// under the pointer, and every other input changes nothing. Otherwise:
    /// - Up/`k` and Down/`j` move the cursor one item; Enter opens or copies; Space/`d`
    ///   marks done; Backspace/Delete clears; `C` clears everything; Esc/`q` closes;
    /// - a click on the close button closes, on "clear" clears everything, and on the list
    ///   clicks the row under it at the column within the list;
    /// - a pointer move sets the hover flags of the two buttons and, over the list, puts
    ///   the cursor on the row under it;
    /// - the wheel scrolls `WHEEL_SCROLL_LINES` rows.
    pub open spec fn handled(before: App, after: App, input: Input, areas: PanelAreas) -> bool {
        if before.detail_v() is Some {
            match input {
                Input::Key(Key::Esc) | Input::Key(Key::Enter) => Self::dismissed(before, after),
                Input::Click { col, row } => if within_spec(areas.close, col, row) {
                    Self::closing(before, after)
                } else if within_spec(areas.clear_all, col, row) {
                    Self::cleared_everything(before, after)
                } else {
                    after == before
                },
                Input::Hover { col, row } => Self::hovered(
                    before,
                    after,
                    within_spec(areas.close, col, row),
                    within_spec(areas.clear_all, col, row),
                    before.cursor_v(),
                ),
                _ => after == before,
            }
        } else {
            match input {
                Input::Key(k) => match k {
                    Key::Up | Key::K => Self::moved_cursor(before, after, -1isize),
                    Key::Down | Key::J => Self::moved_cursor(before, after, 1isize),
                    Key::Enter => Self::activated(before, after),
                    Key::Space | Key::D => Self::toggled_done(before, after),
                    Key::Backspace | Key::Delete => Self::cleared_at_cursor(before, after),
                    Key::ShiftC => Self::cleared_everything(before, after),
                    Key::Esc | Key::Q => Self::closing(before, after),
                    Key::Other => after == before,
                },
                Input::Click { col, row } => if within_spec(areas.close, col, row) {
                    Self::closing(before, after)
                } else if within_spec(areas.clear_all, col, row) {
                    Self::cleared_everything(before, after)
                } else if within_spec(areas.list, col, row) {
                    let t = Self::row_under(before.scroll_v(), areas, row);
                    if t <= usize::MAX {
                        Self::clicked_row(
                            before,
                            after,
                            t as usize,
                            (col - areas.list.x) as u16,
                            areas.list.width,
                        )
                    } else {
                        after == before
                    }
                } else {
                    after == before
                },
                Input::Hover { col, row } => {
                    let t = Self::row_under(before.scroll_v(), areas, row);
                    Self::hovered(
                        before,
                        after,
                        within_spec(areas.close, col, row),
                        within_spec(areas.clear_all, col, row),
                        if within_spec(areas.list, col, row) && t <= usize::MAX {
                            Some(t as usize)
                        } else {
                            before.cursor_v()
                        },
                    )
                },
                Input::WheelUp => Self::scrolled(before, after, (-WHEEL_SCROLL_LINES) as isize),
                Input::WheelDown => Self::scrolled(before, after, WHEEL_SCROLL_LINES),
                Input::Other => after == before,
            }
        }
    }

    /// Reacts to one input, laid out as `areas` (see `handled`).
    pub fn handle_input(&mut self, input: Input, areas: &PanelAreas)
        requires
            old(self).wf(),
        ensures
            final(self).wf(),
            Self::handled(*old(self), *final(self), input, *areas),
    {
        if self.detail.is_some() {
            match input {
                Input::Key(Key::Esc) | Input::Key(Key::Enter) => self.dismiss_detail(),
                Input::Click { col, row } => {
                    if within(areas.close, col, row) {
                        self.click_close();
                    } else if within(areas.clear_all, col, row) {
                        self.click_clear_all();
                    }
                },
                Input::Hover { col, row } => {
                    self.close_hovered = within(areas.close, col, row);
                    self.clear_all_hovered = within(areas.clear_all, col, row);
                },
                _ => {},
            }
            return;
        }
        match input {
            Input::Key(k) => match k {
                Key::Up | Key::K => self.move_cursor(-1),
                Key::Down | Key::J => self.move_cursor(1),
                Key::Enter => self.activate_cursor(),
                Key::Space | Key::D => self.toggle_done_cursor(),
                Key::Backspace | Key::Delete => self.clear_cursor(),
                Key::ShiftC => self.click_clear_all(),
                Key::Esc | Key::Q => self.click_close(),
                Key::Other => {},
            },
            Input::Click { col, row } => {
                if within(areas.close, col, row) {
                    self.click_close();
                } else if within(areas.clear_all, col, row) {
                    self.click_clear_all();
                } else if within(areas.list, col, row) {
                    let offset = (row - areas.list.y) as usize;
                    if let Some(t) = self.scroll.checked_add(offset) {
                        self.click_row(t, col - areas.list.x, areas.list.width);
                    }
                }
            },
            Input::Hover { col, row } => {
                let over_close = within(areas.close, col, row);
                let over_clear_all = within(areas.clear_all, col, row);
                let cursor = if within(areas.list, col, row) {
                    let offset = (row - areas.list.y) as usize;
                    match self.scroll.checked_add(offset) {
                        Some(t) => Some(t),
                        None => self.cursor,
                    }
                } else {
                    self.cursor
                };
                self.close_hovered = over_close;
                self.clear_all_hovered = over_clear_all;
                self.cursor = cursor;
            },
            Input::WheelUp => self.scroll_by(-WHEEL_SCROLL_LINES),
            Input::WheelDown => self.scroll_by(WHEEL_SCROLL_LINES),
            Input::Other => {},
        }
    }

    /// The rows on screen in a list area `height` rows tall: from the first visible row to
    /// as many as fit, within the rows there are.
    pub fn visible_range(&self, height: u16) -> (r: (usize, usize))
        ensures
            r.0 == (if self.scroll_v() < self.rows_v().len() {
                self.scroll_v() as int
            } else {
                self.rows_v().len() as int
            }),
            r.1 == (if self.scroll_v() + height < self.rows_v().len() {
                self.scroll_v() + height
            } else {
                self.rows_v().len() as int
            }),
    {
        let n = self.rows.len();
        let lo = if self.scroll < n {
            self.scroll
        } else {
            n
        };
        let hi = if self.scroll < n && (height as usize) < n - self.scroll {
            self.scroll + height as usize
        } else {
            n
        };
        (lo, hi)
    }

    /// The event loop opened `path` with `opener`: leaves the feedback message behind.
    pub fn file_opened(&mut self, path: &str, opener: &Opener)
        ensures
            final(self).status_of() == Some(
                (
                    opened_message_spec(file_label_spec(path@), opener@),
                    old(self).clock_of(),
                ),
            ),
            final(self).pending() == old(self).pending(),
            final(self).rows_v() == old(self).rows_v(),
            final(self).cursor_v() == old(self).cursor_v(),
            final(self).scroll_v() == old(self).scroll_v(),
            final(self).wf() == old(self).wf(),
            final(self).height() == old(self).height(),
            final(self).same_context(*old(self)),
    {
        let label = file_label(path);
        let msg = opened_message(label.as_str(), opener);
        self.set_status(msg);
    }

    /// The rows after a poll: what `poll_tail` left, minus anything newly cleared
    /// elsewhere (then pruned) when the cleared marks changed.
    pub open spec fn rows_after_poll(
        tailed: Seq<RowView>,
        old_cleared: Set<Seq<char>>,
        new_cleared: Set<Seq<char>>,
    ) -> Seq<RowView> {
        if new_cleared != old_cleared {
            prune_spec(drop_cleared(tailed, new_cleared))
        } else {
            tailed
        }
    }

    /// Takes in what the event loop read since the last tick: the tail of the log and the
    /// current done and cleared marks (which another panel may have changed). Items cleared
    /// elsewhere leave the rows at once. Returns true when the number of rows changed, and
    /// then puts the cursor on the newest item.
    pub fn poll(&mut self, read: &TailRead, done: MarkSet, cleared: MarkSet) -> (changed: bool)
        requires
            old(self).wf(),
            poll_fits(old(self).offset_of(), *read),
        ensures
            final(self).wf(),
            ({
                let t = poll_tail_spec(
                    old(self).offset_of(),
                    *read,
                    old(self).rows_v(),
                    old(self).group_of(),
                    old(self).home_of(),
                    old(self).cleared_set(),
                );
                let rows = Self::rows_after_poll(t.1, old(self).cleared_set(), cleared@);
                &&& final(self).offset_of() == t.0
                &&& final(self).group_of() == t.2
                &&& final(self).rows_v() == rows
                &&& changed == (rows.len() != old(self).rows_v().len())
            }),
            final(self).done_set() == done@,
            final(self).cleared_set() == cleared@,
            changed ==> final(self).cursor_v() == last_item(final(self).rows_v())
                && final(self).scroll_v() == visible_scroll(
                old(self).scroll_v() as int,
                old(self).height(),
                final(self).cursor_v(),
                final(self).rows_v().len() as int,
            ),
            !changed ==> final(self).cursor_v() == old(self).cursor_v() && final(self).scroll_v()
                == old(self).scroll_v(),
            final(self).status_of() == old(self).status_of(),
            final(self).pending() == old(self).pending(),
            final(self).height() == old(self).height(),
            final(self).home_of() == old(self).home_of(),
            final(self).clock_of() == old(self).clock_of(),
            final(self).should_quit_v() == old(self).should_quit_v(),
            final(self).close_hovered_v() == old(self).close_hovered_v(),
            final(self).clear_all_hovered_v() == old(self).clear_all_hovered_v(),
            final(self).detail_v() == old(self).detail_v(),
    {
        let before = self.rows.len();
        let ghost old_rows = self.rows_v();
        let ghost old_cleared = self.cleared@;
        proof {
            crate::laws::lemma_poll_tail_shows_no_cleared(
                self.offset,
                *read,
                old_rows,
                self.group_of(),
                self.home@,
                old_cleared,
            );
        }
        self.offset = poll_tail(
            self.offset,
            read,
            &mut self.rows,
            &mut self.last_key,
            self.home.as_str(),
            &self.cleared,
        );
        self.done = done;
        if !cleared.same_keys(&self.cleared) {
            self.cleared = cleared;
            let ghost tailed = self.rows_v();
            self.rows = Self::rows_without_cleared(&self.rows, &self.cleared);
            proof {
                crate::laws::lemma_drop_cleared(tailed, self.cleared@);
            }
            self.prune_empty_groups();
        } else {
            self.cleared = cleared;
        }
        if self.rows.len() != before {
            self.jump_to_latest();
            true
        } else {
            false
        }
    }

    /// Hands the queued effects to the event loop, oldest first, and empties the queue.
    pub fn take_effects(&mut self) -> (r: Vec<Effect>)
        ensures
            effects_view(r@) == old(self).pending(),
            final(self).pending() == Seq::<EffectView>::empty(),
            final(self).rows_v() == old(self).rows_v(),
            final(self).cursor_v() == old(self).cursor_v(),
            final(self).scroll_v() == old(self).scroll_v(),
            final(self).status_of() == old(self).status_of(),
            final(self).same_context(*old(self)),
            final(self).wf() == old(self).wf(),
            final(self).height() == old(self).height(),
    {
        let mut r: Vec<Effect> = Vec::new();
        std::mem::swap(&mut r, &mut self.effects);
        proof {
            assert(effects_view(self.effects@) =~= Seq::<EffectView>::empty());
        }
        r
    }
}

} // verus!
