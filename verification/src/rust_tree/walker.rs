//! The traversal engine for a real directory tree, as a state machine.
//!
//! The engine reads nothing itself. It hands out one action at a time (read a
//! directory, count a directory's entries, write a line) and takes the
//! outcome back as the next event. The first event answers the reading of
//! the root directory. The work stack holds one frame for each directory
//! that is open: its entries in display order and how far they are shown.

use vstd::prelude::*;
use crate::rust_tree::entry::{Entry, EntryView, entry_views};
use crate::rust_tree::options::TreeOptions;
use crate::rust_tree::render::{entry_line, format_entry_line};
use crate::rust_tree::sorting::names_identify;
use crate::rust_tree::traversal::{
    all_neutral, arrange, arranged, copy_flags, is_arrangement,
    lemma_arranged_ignores_read_order,
    level_allows, level_allows_check, over_limit, over_limit_check,
};

verus! {

/// What the engine waits for.
#[derive(Clone, Copy, Debug, PartialEq, Eq, Structural)]
pub enum Phase {
    /// The entries of a directory: of the root while no frame is open, else of
    /// the entry shown last.
    Reading,
    /// The number of raw entries of the entry shown last.
    Counting,
    /// The writing of the line handed out last.
    Emitted,
    /// Nothing: the walk is over.
    Finished,
}

/// What the caller reports back.
pub enum Event {
    /// The directory was read: its entries.
    Listing(Vec<Entry>),
    /// The directory could not be read.
    ReadFailed,
    /// The directory holds this many raw entries.
    Count(u64),
    /// The directory's entries could not be counted.
    CountFailed,
    /// The line was written.
    Written,
}

/// An event as the contracts speak of it.
pub enum EventView {
    Listing(Seq<EntryView>),
    ReadFailed,
    Count(u64),
    CountFailed,
    Written,
}

impl View for Event {
    type V = EventView;

    open spec fn view(&self) -> EventView {
        match self {
            Event::Listing(entries) => EventView::Listing(entry_views(entries@)),
            Event::ReadFailed => EventView::ReadFailed,
            Event::Count(n) => EventView::Count(*n),
            Event::CountFailed => EventView::CountFailed,
            Event::Written => EventView::Written,
        }
    }
}

/// What the caller is to do next.
pub enum Action {
    /// Read the directory at `path` and answer with its entries.
    ReadDir { path: String },
    /// Count the raw entries of the directory at `path`.
    CountEntries { path: String },
    /// Write `line`, the line of an entry with `depth` ancestors below the root.
    Emit { line: String, depth: usize },
    /// Nothing is left to show.
    Finish,
}

/// An action as the contracts speak of it.
pub enum ActionView {
    ReadDir { path: Seq<char> },
    CountEntries { path: Seq<char> },
    Emit { line: Seq<char>, depth: nat },
    Finish,
}

impl View for Action {
    type V = ActionView;

    open spec fn view(&self) -> ActionView {
        match self {
            Action::ReadDir { path } => ActionView::ReadDir { path: path@ },
            Action::CountEntries { path } => ActionView::CountEntries { path: path@ },
            Action::Emit { line, depth } => ActionView::Emit { line: line@, depth: *depth as nat },
            Action::Finish => ActionView::Finish,
        }
    }
}

/// One open directory.
pub struct Frame {
    entries: Vec<Entry>,
    next: usize,
    indent: Vec<bool>,
}

/// One open directory: its entries in display order, how many of them have
/// been shown, and for each ancestor whether it was the last of its siblings.
pub struct FrameView {
    pub entries: Seq<EntryView>,
    pub next: nat,
    pub indent: Seq<bool>,
}

impl View for Frame {
    type V = FrameView;

    closed spec fn view(&self) -> FrameView {
        FrameView {
            entries: entry_views(self.entries@),
            next: self.next as nat,
            indent: self.indent@,
        }
    }
}

/// The traversal engine: the state of one walk.
pub struct Walker {
    options: TreeOptions,
    frames: Vec<Frame>,
    phase: Phase,
    directories: u64,
    files: u64,
    emitted: Ghost<nat>,
}

/// The state of a walk: the option set, the work stack with the innermost
/// directory last, the phase, the two counts, and how many lines have been
/// handed out.
pub struct WalkerView {
    pub options: TreeOptions,
    pub frames: Seq<FrameView>,
    pub phase: Phase,
    pub directories: nat,
    pub files: nat,
    pub emitted: nat,
}

/// The views of the frames, outermost first.
pub open spec fn frame_views(frames: Seq<Frame>) -> Seq<FrameView> {
    Seq::new(frames.len(), |i: int| frames[i]@)
}

impl View for Walker {
    type V = WalkerView;

    closed spec fn view(&self) -> WalkerView {
        WalkerView {
            options: self.options,
            frames: frame_views(self.frames@),
            phase: self.phase,
            directories: self.directories as nat,
            files: self.files as nat,
            emitted: self.emitted@,
        }
    }
}

/// The work stack without the frames at its top that are shown to the end.
pub open spec fn settle(frames: Seq<FrameView>) -> Seq<FrameView>
    decreases frames.len(),
{
    if frames.len() > 0 && frames.last().next >= frames.last().entries.len() {
        settle(frames.drop_last())
    } else {
        frames
    }
}

impl WalkerView {
    /// The state before the first event: the root directory is being read.
    pub open spec fn initial(options: TreeOptions) -> WalkerView {
        WalkerView {
            options,
            frames: Seq::empty(),
            phase: Phase::Reading,
            directories: 0,
            files: 0,
            emitted: 0,
        }
    }

    /// What holds of every state of a walk. Each frame lies as deep as its
    /// place in the stack says. The two counts add up to the number of lines
    /// handed out. With a depth limit no frame lies at or below the limit
    /// (but for the root's frame, which is always shown).
    pub open spec fn wf(&self) -> bool {
        &&& forall|i: int|
            0 <= i < self.frames.len() ==> {
                &&& (#[trigger] self.frames[i]).next <= self.frames[i].entries.len()
                &&& self.frames[i].indent.len() == i
            }
        &&& self.phase == Phase::Emitted || self.phase == Phase::Counting ==> self.frames.len() > 0
        &&& self.phase != Phase::Finished && self.frames.len() > 0 ==> self.frames.last().next
            >= 1
        &&& (self.phase == Phase::Reading || self.phase == Phase::Counting) && self.frames.len()
            > 0 ==> level_allows(self.options, (self.frames.len() - 1) as nat)
        &&& self.depth_bounded()
        &&& self.directories + self.files == self.emitted
    }

    /// With a depth limit, every open frame but the root's lies above it.
    pub open spec fn depth_bounded(&self) -> bool {
        match self.options.level {
            Some(limit) => self.frames.len() <= 1 || self.frames.len() <= limit,
            None => true,
        }
    }

    /// The entry that was shown last.
    pub open spec fn current(&self) -> EntryView {
        let top = self.frames.last();
        top.entries[top.next - 1]
    }

    /// The indentation state for the entries of the directory that is being
    /// read: that of the entry shown last, and whether that entry was the
    /// last of its siblings.
    pub open spec fn child_indent(&self) -> Seq<bool> {
        if self.frames.len() == 0 {
            Seq::empty()
        } else {
            let top = self.frames.last();
            top.indent.push(top.next == top.entries.len())
        }
    }

    /// The same state in another phase.
    pub open spec fn with_phase(&self, phase: Phase) -> WalkerView {
        WalkerView { phase, ..*self }
    }

    /// The same state with another work stack.
    pub open spec fn with_frames(&self, frames: Seq<FrameView>) -> WalkerView {
        WalkerView { frames, ..*self }
    }

    /// Shows the next entry: closes the frames that are shown to the end,
    /// then hands out the line of the next entry of the innermost frame left
    /// and counts the entry; finishes if no frame is left.
    pub open spec fn proceed(&self) -> (WalkerView, ActionView) {
        let frames = settle(self.frames);
        if frames.len() == 0 {
            (self.with_frames(frames).with_phase(Phase::Finished), ActionView::Finish)
        } else {
            let top = frames.last();
            let entry = top.entries[top.next as int];
            let is_last = top.next + 1 == top.entries.len();
            let shown = FrameView { next: top.next + 1, ..top };
            (
                WalkerView {
                    options: self.options,
                    frames: frames.drop_last().push(shown),
                    phase: Phase::Emitted,
                    directories: if entry.is_dir() {
                        self.directories + 1
                    } else {
                        self.directories
                    },
                    files: if entry.is_dir() {
                        self.files
                    } else {
                        self.files + 1
                    },
                    emitted: self.emitted + 1,
                },
                ActionView::Emit {
                    line: entry_line(entry, self.options, top.indent, is_last),
                    depth: top.indent.len(),
                },
            )
        }
    }

    /// The step of the engine. In `EventView::Listing` stand the entries that
    /// are shown of the directory, in display order.
    ///
    /// After a line is written: a directory that the depth limit lets be
    /// entered is counted first if there is a fan-out limit, else read; any
    /// other entry is followed by the next one. After a count: a directory
    /// over the limit is passed by; else, and if it could not be counted, it
    /// is read. After a reading: the entries become the innermost frame; a
    /// directory that could not be read is passed by. An event of another
    /// kind than the phase waits for counts as a failure of what was asked.
    pub open spec fn next_state(&self, event: EventView) -> (WalkerView, ActionView) {
        match self.phase {
            Phase::Finished => (*self, ActionView::Finish),
            Phase::Emitted => {
                let entry = self.current();
                if entry.is_dir() && level_allows(self.options, (self.frames.len() - 1) as nat) {
                    if self.options.file_limit is Some {
                        (
                            self.with_phase(Phase::Counting),
                            ActionView::CountEntries { path: entry.path },
                        )
                    } else {
                        (self.with_phase(Phase::Reading), ActionView::ReadDir { path: entry.path })
                    }
                } else {
                    self.proceed()
                }
            },
            Phase::Counting => match event {
                EventView::Count(n) if over_limit(self.options, n) => self.proceed(),
                _ => (
                    self.with_phase(Phase::Reading),
                    ActionView::ReadDir { path: self.current().path },
                ),
            },
            Phase::Reading => match event {
                EventView::Listing(kept) => self.with_frames(
                    self.frames.push(
                        FrameView { entries: kept, next: 0, indent: self.child_indent() },
                    ),
                ).proceed(),
                _ => self.proceed(),
            },
        }
    }

    /// Whether the two counts leave room for one more entry.
    pub open spec fn has_room(&self) -> bool {
        self.directories < u64::MAX && self.files < u64::MAX
    }
}

/// Settling closes frames at the top only, and stops at a frame that has an
/// entry left.
pub proof fn lemma_settle(frames: Seq<FrameView>)
    ensures
        settle(frames).len() <= frames.len(),
        settle(frames) == frames.subrange(0, settle(frames).len() as int),
        settle(frames).len() > 0 ==> settle(frames).last().next < settle(
            frames,
        ).last().entries.len(),
    decreases frames.len(),
{
    if frames.len() > 0 && frames.last().next >= frames.last().entries.len() {
        let rest = frames.drop_last();
        lemma_settle(rest);
        assert(rest.subrange(0, settle(rest).len() as int) =~= frames.subrange(
            0,
            settle(rest).len() as int,
        ));
    } else {
        assert(frames.subrange(0, frames.len() as int) =~= frames);
    }
}

/// A step leads from a state of a walk to a state of a walk. The number of
/// lines handed out grows by one with each line and not otherwise, so the two
/// counts always add up to the number of entry lines.
pub proof fn lemma_step_keeps_count(w: WalkerView, event: EventView)
    requires
        w.wf(),
    ensures
        w.next_state(event).0.wf(),
        w.next_state(event).0.options == w.options,
        w.next_state(event).0.directories + w.next_state(event).0.files == w.directories + w.files
            + (if w.next_state(event).1 is Emit {
            1nat
        } else {
            0nat
        }),
{
    let start = match (w.phase, event) {
        (Phase::Reading, EventView::Listing(kept)) => w.with_frames(
            w.frames.push(FrameView { entries: kept, next: 0, indent: w.child_indent() }),
        ),
        _ => w,
    };
    lemma_settle(start.frames);
    let settled = settle(start.frames);
    assert forall|i: int| 0 <= i < settled.len() implies settled[i] == start.frames[i] by {}
    let (next, action) = w.next_state(event);
    if next.phase == Phase::Emitted && action is Emit {
        assert forall|i: int| 0 <= i < next.frames.len() implies {
            &&& (#[trigger] next.frames[i]).next <= next.frames[i].entries.len()
            &&& next.frames[i].indent.len() == i
        } by {
            if i < settled.len() - 1 {
                assert(next.frames[i] == settled[i]);
            }
        }
    }
}

/// With a depth limit of at least one, no line is handed out for an entry
/// that lies as deep as the limit or deeper.
pub proof fn lemma_step_depth_bound(w: WalkerView, event: EventView, limit: u32)
    requires
        w.wf(),
        w.options.level == Some(limit),
        limit >= 1,
    ensures
        match w.next_state(event).1 {
            ActionView::Emit { line, depth } => depth < limit,
            _ => true,
        },
{
    let start = match (w.phase, event) {
        (Phase::Reading, EventView::Listing(kept)) => w.with_frames(
            w.frames.push(FrameView { entries: kept, next: 0, indent: w.child_indent() }),
        ),
        _ => w,
    };
    lemma_settle(start.frames);
    let settled = settle(start.frames);
    if settled.len() > 0 {
        assert(settled.last() == start.frames[settled.len() - 1]);
    }
}

/// The walk over a sequence of events: the state it ends in and the actions
/// handed out on the way.
pub open spec fn run(w: WalkerView, events: Seq<EventView>) -> (WalkerView, Seq<ActionView>)
    decreases events.len(),
{
    if events.len() == 0 {
        (w, Seq::empty())
    } else {
        let (mid, actions) = run(w, events.drop_last());
        let (end, action) = mid.next_state(events.last());
        (end, actions.push(action))
    }
}

/// How many of the actions are lines.
pub open spec fn lines_among(actions: Seq<ActionView>) -> nat
    decreases actions.len(),
{
    if actions.len() == 0 {
        0
    } else {
        lines_among(actions.drop_last()) + (if actions.last() is Emit {
            1nat
        } else {
            0nat
        })
    }
}

/// Whatever the events of a walk from its beginning: the directory count and
/// the file count add up to the number of entry lines handed out.
pub proof fn lemma_counts_equal_lines(options: TreeOptions, events: Seq<EventView>)
    ensures
        run(WalkerView::initial(options), events).0.wf(),
        run(WalkerView::initial(options), events).0.directories + run(
            WalkerView::initial(options),
            events,
        ).0.files == lines_among(run(WalkerView::initial(options), events).1),
    decreases events.len(),
{
    let w = WalkerView::initial(options);
    if events.len() > 0 {
        lemma_counts_equal_lines(options, events.drop_last());
        let (mid, actions) = run(w, events.drop_last());
        lemma_step_keeps_count(mid, events.last());
        let (end, action) = mid.next_state(events.last());
        assert(actions.push(action).drop_last() =~= actions);
    }
}

/// Whatever the events of a walk from its beginning under a depth limit of at
/// least one: every line handed out belongs to an entry above the limit.
pub proof fn lemma_lines_above_limit(options: TreeOptions, events: Seq<EventView>, limit: u32)
    requires
        options.level == Some(limit),
        limit >= 1,
    ensures
        run(WalkerView::initial(options), events).0.options == options,
        forall|i: int|
            0 <= i < run(WalkerView::initial(options), events).1.len() ==> match (#[trigger] run(
                WalkerView::initial(options),
                events,
            ).1[i]) {
                ActionView::Emit { line, depth } => depth < limit,
                _ => true,
            },
    decreases events.len(),
{
    let w = WalkerView::initial(options);
    if events.len() > 0 {
        lemma_lines_above_limit(options, events.drop_last(), limit);
        lemma_counts_equal_lines(options, events.drop_last());
        let (mid, actions) = run(w, events.drop_last());
        lemma_step_keeps_count(mid, events.last());
        lemma_step_depth_bound(mid, events.last(), limit);
    }
}

/// The event that the engine works on for an event of the caller: of a
/// listing, the entries that are shown, in display order.
pub open spec fn shown_event(event: EventView, options: TreeOptions) -> EventView {
    match event {
        EventView::Listing(raw) => EventView::Listing(arranged(raw, options)),
        _ => event,
    }
}

/// The events that the engine works on for the events of the caller.
pub open spec fn shown_events(events: Seq<EventView>, options: TreeOptions) -> Seq<EventView> {
    Seq::new(events.len(), |i: int| shown_event(events[i], options))
}

/// Two events report the same: the same outcome, or two readings that hold
/// the same entries, of which no two different ones bear the same name.
pub open spec fn same_report(a: EventView, b: EventView) -> bool {
    match (a, b) {
        (EventView::Listing(x), EventView::Listing(y)) => x.to_multiset() == y.to_multiset()
            && names_identify(x),
        _ => a == b,
    }
}

/// Two walks over the same directories hand out the same lines and end in
/// the same state, in whatever order the entries of each directory were
/// read.
pub proof fn lemma_walk_ignores_read_order(
    options: TreeOptions,
    first: Seq<EventView>,
    second: Seq<EventView>,
)
    requires
        first.len() == second.len(),
        forall|i: int| 0 <= i < first.len() ==> same_report(#[trigger] first[i], second[i]),
    ensures
        run(WalkerView::initial(options), shown_events(first, options)) == run(
            WalkerView::initial(options),
            shown_events(second, options),
        ),
{
    assert forall|i: int| 0 <= i < first.len() implies shown_event(first[i], options)
        == shown_event(second[i], options) by {
        assert(same_report(first[i], second[i]));
        match (first[i], second[i]) {
            (EventView::Listing(x), EventView::Listing(y)) => {
                lemma_arranged_ignores_read_order(x, y, options);
            },
            _ => {},
        }
    }
    assert(shown_events(first, options) =~= shown_events(second, options));
}

impl Walker {
    /// A walk at its beginning: the caller reads the root directory and
    /// reports its entries as the first event.
    pub fn new(options: TreeOptions) -> (w: Walker)
        ensures
            w@ == WalkerView::initial(options),
            w@.wf(),
    {
        let w = Walker {
            options,
            frames: Vec::new(),
            phase: Phase::Reading,
            directories: 0,
            files: 0,
            emitted: Ghost(0),
        };
        assert(w@.frames =~= Seq::<FrameView>::empty());
        w
    }

    /// The option set of the walk.
    pub fn options(&self) -> (r: &TreeOptions)
        ensures
            *r == self@.options,
    {
        &self.options
    }

    /// What the engine waits for.
    pub fn phase(&self) -> (r: Phase)
        ensures
            r == self@.phase,
    {
        self.phase
    }

    /// The number of directories shown so far.
    pub fn directories(&self) -> (r: u64)
        ensures
            r == self@.directories,
    {
        self.directories
    }

    /// The number of other entries shown so far.
    pub fn files(&self) -> (r: u64)
        ensures
            r == self@.files,
    {
        self.files
    }

    /// Whether the two counts leave room for one more entry.
    pub fn has_room(&self) -> (r: bool)
        ensures
            r == self@.has_room(),
    {
        self.directories < u64::MAX && self.files < u64::MAX
    }

    fn current_path(&self) -> (path: String)
        requires
            self@.frames.len() > 0,
            1 <= self@.frames.last().next <= self@.frames.last().entries.len(),
        ensures
            path@ == self@.current().path,
    {
        let top = &self.frames[self.frames.len() - 1];
        assert(self@.frames.last() == top@);
        top.entries[top.next - 1].path.clone()
    }

    fn current_is_dir(&self) -> (r: bool)
        requires
            self@.frames.len() > 0,
            1 <= self@.frames.last().next <= self@.frames.last().entries.len(),
        ensures
            r == self@.current().is_dir(),
    {
        let top = &self.frames[self.frames.len() - 1];
        assert(self@.frames.last() == top@);
        top.entries[top.next - 1].is_directory()
    }

    fn child_indent(&self) -> (indent: Vec<bool>)
        ensures
            indent@ == self@.child_indent(),
    {
        if self.frames.len() > 0 {
            let top = &self.frames[self.frames.len() - 1];
            assert(self@.frames.last() == top@);
            let mut indent = copy_flags(&top.indent);
            indent.push(top.next == top.entries.len());
            indent
        } else {
            Vec::new()
        }
    }

    fn proceed(&mut self) -> (action: Action)
        requires
            old(self)@.has_room(),
            old(self)@.directories + old(self)@.files == old(self)@.emitted,
        ensures
            (final(self)@, action@) == old(self)@.proceed(),
    {
        let ghost start = self@;
        proof {
            assert(self@.frames.subrange(0, self@.frames.len() as int) =~= self@.frames);
        }
        while self.frames.len() > 0 && self.frames[self.frames.len() - 1].next
            >= self.frames[self.frames.len() - 1].entries.len()
            invariant
                settle(start.frames) == settle(self@.frames),
                self@ == start.with_frames(self@.frames),
            decreases self.frames.len(),
        {
            let ghost before = self@.frames;
            assert(before.last() == self.frames@[self.frames.len() - 1]@);
            self.frames.pop();
            assert(self@.frames =~= before.drop_last());
        }
        if self.frames.len() == 0 {
            self.phase = Phase::Finished;
            assert(self@.frames =~= settle(start.frames));
            return Action::Finish;
        }
        let ghost settled = self@.frames;
        assert(settled.last() == self.frames@[self.frames.len() - 1]@);
        assert(settled == settle(start.frames));
        let mut top = match self.frames.pop() {
            Some(f) => f,
            None => {
                return Action::Finish;
            },
        };
        assert(top@ == settled.last());
        let is_last = top.next + 1 == top.entries.len();
        let line = format_entry_line(&top.entries[top.next], &self.options, &top.indent, is_last);
        let depth = top.indent.len();
        if top.entries[top.next].is_directory() {
            self.directories = self.directories + 1;
        } else {
            self.files = self.files + 1;
        }
        top.next = top.next + 1;
        self.frames.push(top);
        self.phase = Phase::Emitted;
        proof {
            self.emitted@ = self.emitted@ + 1;
        }
        assert(self@.frames =~= settled.drop_last().push(
            FrameView { next: settled.last().next + 1, ..settled.last() },
        ));
        Action::Emit { line, depth }
    }

    /// Takes the next event, in which a listing holds the entries that are
    /// shown of the directory, in display order, and says what to do next.
    pub fn advance(&mut self, event: Event) -> (action: Action)
        requires
            old(self)@.wf(),
            old(self)@.has_room(),
        ensures
            (final(self)@, action@) == old(self)@.next_state(event@),
            final(self)@.wf(),
    {
        proof {
            lemma_step_keeps_count(self@, event@);
        }
        match self.phase {
            Phase::Finished => Action::Finish,
            Phase::Emitted => {
                assert(self@.frames.last() == self.frames@[self.frames.len() - 1]@);
                if self.current_is_dir() && level_allows_check(
                    &self.options,
                    self.frames.len() - 1,
                ) {
                    let path = self.current_path();
                    if self.options.file_limit.is_some() {
                        self.phase = Phase::Counting;
                        Action::CountEntries { path }
                    } else {
                        self.phase = Phase::Reading;
                        Action::ReadDir { path }
                    }
                } else {
                    self.proceed()
                }
            },
            Phase::Counting => {
                let over = match event {
                    Event::Count(n) => over_limit_check(&self.options, n),
                    _ => false,
                };
                if over {
                    self.proceed()
                } else {
                    let path = self.current_path();
                    self.phase = Phase::Reading;
                    Action::ReadDir { path }
                }
            },
            Phase::Reading => {
                match event {
                    Event::Listing(kept) => {
                        let indent = self.child_indent();
                        let ghost before = self@.frames;
                        let frame = Frame { entries: kept, next: 0, indent };
                        self.frames.push(frame);
                        assert(self@.frames =~= before.push(frame@));
                        self.proceed()
                    },
                    _ => self.proceed(),
                }
            },
        }
    }

    /// Takes the next event, in which a listing holds the raw entries of the
    /// directory as they were read, and says what to do next. The raw entries
    /// are filtered and sorted first: the step is that of the engine on some
    /// arrangement of them, and on the one that the patterns' named answers
    /// give where these are known for every name. The two counts must
    /// leave room for one more entry.
    pub fn step(&mut self, event: Event) -> (action: Action)
        requires
            old(self)@.wf(),
            old(self)@.has_room(),
        ensures
            final(self)@.wf(),
            match event@ {
                EventView::Listing(raw) if old(self)@.phase == Phase::Reading => exists|
                    kept: Seq<EntryView>,
                |
                    is_arrangement(raw, old(self)@.options, kept) && (final(self)@, action@) == old(
                        self,
                    )@.next_state(EventView::Listing(kept)),
                _ => (final(self)@, action@) == old(self)@.next_state(event@),
            },
            match event@ {
                EventView::Listing(raw) if old(self)@.phase == Phase::Reading && all_neutral(
                    raw,
                    old(self)@.options,
                ) => (final(self)@, action@) == old(self)@.next_state(
                    shown_event(event@, old(self)@.options),
                ),
                _ => true,
            },
    {
        match event {
            Event::Listing(raw) => {
                match self.phase {
                    Phase::Reading => {
                        let kept = arrange(&raw, &self.options);
                        self.advance(Event::Listing(kept))
                    },
                    _ => self.advance(Event::Listing(raw)),
                }
            },
            other => self.advance(other),
        }
    }
}

} // verus!
