use vstd::prelude::*;

verus! {

/// What an input line is opened for.
pub enum InputOperation {
    /// Run a command on the given path.
    Command { to: String },
    /// Name a new file in the given directory.
    NewFile { at: String },
    /// Name a new directory in the given directory.
    NewDir { at: String },
    /// Search the files.
    SearchFiles,
}

/// A destructive action that waits for confirmation.
pub enum PendingOperation {
    DeleteFile(String),
}

/// An intent for the host application.
pub enum AppEvent {
    OpenPopup(PendingOperation),
    OpenInput(InputOperation),
    OpenFile(String),
    PreviewFile(String),
    TogglePreviewMode,
}

/// An intent with its paths as text.
pub enum EventView {
    DeletePopup(Seq<char>),
    CommandInput(Seq<char>),
    NewFileInput(Seq<char>),
    NewDirInput(Seq<char>),
    SearchInput,
    OpenFile(Seq<char>),
    PreviewFile(Seq<char>),
    TogglePreviewMode,
}

impl AppEvent {
    pub open spec fn view(&self) -> EventView {
        match self {
            AppEvent::OpenPopup(PendingOperation::DeleteFile(p)) => EventView::DeletePopup(p@),
            AppEvent::OpenInput(InputOperation::Command { to }) => EventView::CommandInput(to@),
            AppEvent::OpenInput(InputOperation::NewFile { at }) => EventView::NewFileInput(at@),
            AppEvent::OpenInput(InputOperation::NewDir { at }) => EventView::NewDirInput(at@),
            AppEvent::OpenInput(InputOperation::SearchFiles) => EventView::SearchInput,
            AppEvent::OpenFile(p) => EventView::OpenFile(p@),
            AppEvent::PreviewFile(p) => EventView::PreviewFile(p@),
            AppEvent::TogglePreviewMode => EventView::TogglePreviewMode,
        }
    }

    /// Whether two intents are the same.
    pub fn same(&self, other: &AppEvent) -> (r: bool)
        ensures
            r == (self.view() == other.view()),
    {
        match (self, other) {
            (
                AppEvent::OpenPopup(PendingOperation::DeleteFile(a)),
                AppEvent::OpenPopup(PendingOperation::DeleteFile(b)),
            ) => a.eq(b),
            (
                AppEvent::OpenInput(InputOperation::Command { to: a }),
                AppEvent::OpenInput(InputOperation::Command { to: b }),
            ) => a.eq(b),
            (
                AppEvent::OpenInput(InputOperation::NewFile { at: a }),
                AppEvent::OpenInput(InputOperation::NewFile { at: b }),
            ) => a.eq(b),
            (
                AppEvent::OpenInput(InputOperation::NewDir { at: a }),
                AppEvent::OpenInput(InputOperation::NewDir { at: b }),
            ) => a.eq(b),
            (
                AppEvent::OpenInput(InputOperation::SearchFiles),
                AppEvent::OpenInput(InputOperation::SearchFiles),
            ) => true,
            (AppEvent::OpenFile(a), AppEvent::OpenFile(b)) => a.eq(b),
            (AppEvent::PreviewFile(a), AppEvent::PreviewFile(b)) => a.eq(b),
            (AppEvent::TogglePreviewMode, AppEvent::TogglePreviewMode) => true,
            _ => false,
        }
    }
}

/// The intents of a list, as text.
pub open spec fn event_views(s: Seq<AppEvent>) -> Seq<EventView> {
    s.map_values(|e: AppEvent| e.view())
}

/// An append-only, first-in first-out list of intents, drained by the host.
pub struct Queue {
    pub events: Vec<AppEvent>,
}

impl Queue {
    pub open spec fn view(&self) -> Seq<EventView> {
        event_views(self.events@)
    }

    pub fn new() -> (r: Queue)
        ensures
            r@ == Seq::<EventView>::empty(),
    {
        let r = Queue { events: Vec::new() };
        assert(r@ =~= Seq::<EventView>::empty());
        r
    }

    /// Records an intent at the end.
    pub fn add(&mut self, e: AppEvent)
        ensures
            final(self)@ == old(self)@.push(e.view()),
    {
        let ghost v = e.view();
        self.events.push(e);
        assert(self@ =~= old(self)@.push(v));
    }

    /// Whether an intent like `e` was recorded.
    pub fn contains(&self, e: &AppEvent) -> (r: bool)
        ensures
            r == self@.contains(e.view()),
    {
        let mut i: usize = 0;
        while i < self.events.len()
            invariant
                i <= self.events.len(),
                forall|j: int| 0 <= j < i ==> self@[j] != e.view(),
            decreases self.events.len() - i,
        {
            if self.events[i].same(e) {
                assert(self@[i as int] == e.view());
                return true;
            }
            i = i + 1;
        }
        false
    }

    /// How many intents wait.
    pub fn len(&self) -> (r: usize)
        ensures
            r == self@.len(),
    {
        self.events.len()
    }

    /// Hands every recorded intent over, oldest first, and empties the queue.
    pub fn drain(&mut self) -> (r: Vec<AppEvent>)
        ensures
            event_views(r@) == old(self)@,
            final(self)@ == Seq::<EventView>::empty(),
    {
        let mut r: Vec<AppEvent> = Vec::new();
        std::mem::swap(&mut r, &mut self.events);
        assert(self@ =~= Seq::<EventView>::empty());
        r
    }
}

} // verus!
