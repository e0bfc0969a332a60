use vstd::prelude::*;
use crate::error::{MiniWMError, WindowSystemError};
use crate::keys::{key_workspace, workspace_for_key};
use crate::layout::{column_width, tile, tiling, Placement, Screen};
use crate::workspace::{strictly_increasing, Window, Workspace};

verus! {

/// A notification from the display server, as the dispatcher sees it.
#[derive(Clone, Copy, Debug, PartialEq, Eq, Structural)]
pub enum Event {
    /// A window asks to be shown.
    MapRequest(Window),
    /// A window was taken off the screen.
    UnmapNotify(Window),
    /// A key was pressed with the window-manager modifier held.
    KeyPress(u32),
    KeyRelease(u32),
    Other,
}

/// An order for the display server.
#[derive(Clone, Copy, Debug, PartialEq, Eq, Structural)]
pub enum Command {
    Show(Window),
    Hide(Window),
    Raise(Window),
    Move { window: Window, x: i32, y: i32 },
    Resize { window: Window, width: u32, height: u32 },
}

/// The orders that put one window in its place: move, resize, show.
pub open spec fn place_commands(p: Placement) -> Seq<Command> {
    seq![
        Command::Move { window: p.window, x: p.rect.x, y: p.rect.y },
        Command::Resize { window: p.window, width: p.rect.width, height: p.rect.height },
        Command::Show(p.window),
    ]
}

/// The orders of a layout pass, placement by placement.
pub open spec fn pass_commands(p: Seq<Placement>) -> Seq<Command>
    decreases p.len(),
{
    if p.len() == 0 {
        Seq::empty()
    } else {
        pass_commands(p.drop_last()) + place_commands(p.last())
    }
}

/// A layout pass over the active windows: nothing for an empty workspace,
/// otherwise the screen geometry is needed and its failure is reported.
pub open spec fn layout_pass(windows: Seq<Window>, screen: Result<Screen, WindowSystemError>) -> Result<
    Seq<Command>,
    MiniWMError,
> {
    if windows.len() == 0 {
        Ok(Seq::empty())
    } else {
        match screen {
            Ok(s) => Ok(pass_commands(tiling(windows, s))),
            Err(e) => Err(MiniWMError::DisplayNotFound(e)),
        }
    }
}

/// One `Hide` per window, in order.
pub open spec fn hide_commands(windows: Seq<Window>) -> Seq<Command> {
    Seq::new(windows.len(), |i: int| Command::Hide(windows[i]))
}

/// `after` is `before` with `window` added.
pub open spec fn added(before: Seq<Window>, after: Seq<Window>, window: Window) -> bool {
    &&& strictly_increasing(after)
    &&& after.to_set() == before.to_set().insert(window)
    &&& before.contains(window) ==> after == before
}

/// `after` is `before` without `window`.
pub open spec fn removed(before: Seq<Window>, after: Seq<Window>, window: Window) -> bool {
    &&& strictly_increasing(after)
    &&& after.to_set() == before.to_set().remove(window)
    &&& !before.contains(window) ==> after == before
}

/// The workspaces after switching to `id`: an unknown id gets an empty workspace.
pub open spec fn switched(workspaces: Map<u32, Seq<Window>>, id: u32) -> Map<u32, Seq<Window>> {
    if workspaces.dom().contains(id) {
        workspaces
    } else {
        workspaces.insert(id, Seq::empty())
    }
}

/// Whether the layout pass that `event` calls for has windows to place, and
/// so needs the screen geometry. When it does not, the outcome of the event
/// does not depend on the screen.
pub open spec fn screen_needed(workspaces: Map<u32, Seq<Window>>, active: u32, event: Event) -> bool {
    match event {
        Event::MapRequest(_) => true,
        Event::UnmapNotify(w) => exists|i: int|
            0 <= i < workspaces[active].len() && workspaces[active][i] != w,
        Event::KeyPress(code) => match key_workspace(code) {
            Some(id) => switched(workspaces, id)[id].len() > 0,
            None => false,
        },
        _ => false,
    }
}

/// The orders an event gives rise to, and whether it ended in a failure.
/// On a failure the orders are those decided before it.
pub type Outcome = (Vec<Command>, Result<(), MiniWMError>);

pub open spec fn outcome_view(r: Outcome) -> (Seq<Command>, Result<(), MiniWMError>) {
    (r.0@, r.1)
}

/// The outcome of an event that changes nothing on the screen.
pub open spec fn no_orders() -> (Seq<Command>, Result<(), MiniWMError>) {
    (Seq::empty(), Ok(()))
}

/// What creating a window gives: the layout pass, then raise and show it;
/// nothing if the layout pass fails.
pub open spec fn created_output(
    windows: Seq<Window>,
    window: Window,
    screen: Result<Screen, WindowSystemError>,
) -> (Seq<Command>, Result<(), MiniWMError>) {
    match layout_pass(windows, screen) {
        Ok(c) => (c + seq![Command::Raise(window), Command::Show(window)], Ok(())),
        Err(e) => (Seq::empty(), Err(e)),
    }
}

/// What removing a window gives: the layout pass over what is left;
/// nothing if it fails.
pub open spec fn relayout_output(windows: Seq<Window>, screen: Result<Screen, WindowSystemError>) -> (
    Seq<Command>,
    Result<(), MiniWMError>,
) {
    match layout_pass(windows, screen) {
        Ok(c) => (c, Ok(())),
        Err(e) => (Seq::empty(), Err(e)),
    }
}

/// What a workspace switch gives: hide the outgoing windows, then two
/// layout passes over the incoming ones. When a layout pass fails, the
/// outgoing windows are still hidden.
pub open spec fn switch_output(
    outgoing: Seq<Window>,
    incoming: Seq<Window>,
    screen: Result<Screen, WindowSystemError>,
) -> (Seq<Command>, Result<(), MiniWMError>) {
    match layout_pass(incoming, screen) {
        Ok(c) => (hide_commands(outgoing) + c + c, Ok(())),
        Err(e) => (hide_commands(outgoing), Err(e)),
    }
}

pub open spec fn result_view(r: Result<Vec<Command>, MiniWMError>) -> Result<Seq<Command>, MiniWMError> {
    match r {
        Ok(v) => Ok(v@),
        Err(e) => Err(e),
    }
}

/// Turns placements into the orders that carry them out.
pub fn placement_commands(placements: &Vec<Placement>) -> (r: Vec<Command>)
    ensures
        r@ == pass_commands(placements@),
{
    let mut r: Vec<Command> = Vec::new();
    let mut i: usize = 0;
    while i < placements.len()
        invariant
            i <= placements@.len(),
            r@ == pass_commands(placements@.subrange(0, i as int)),
        decreases placements@.len() - i,
    {
        let p = placements[i];
        r.push(Command::Move { window: p.window, x: p.rect.x, y: p.rect.y });
        r.push(Command::Resize { window: p.window, width: p.rect.width, height: p.rect.height });
        r.push(Command::Show(p.window));
        proof {
            let s = placements@.subrange(0, i as int + 1);
            assert(s.drop_last() =~= placements@.subrange(0, i as int));
            assert(r@ =~= pass_commands(s));
        }
        i = i + 1;
    }
    assert(placements@.subrange(0, placements@.len() as int) =~= placements@);
    r
}

/// The window manager's state: the workspaces, each under its id, and the active one.
pub struct MiniWM {
    ids: Vec<u32>,
    spaces: Vec<Workspace>,
    current: usize,
}

impl MiniWM {
    closed spec fn ids_unique(&self) -> bool {
        forall|i: int, j: int| 0 <= i < j < self.ids@.len() ==> self.ids@[i] != self.ids@[j]
    }

    /// Every workspace is well formed, ids are unique, workspace 0 exists and
    /// the active workspace is one of them.
    pub closed spec fn wf(&self) -> bool {
        &&& self.ids@.len() == self.spaces@.len()
        &&& self.current < self.ids@.len()
        &&& self.ids_unique()
        &&& forall|i: int| 0 <= i < self.spaces@.len() ==> (#[trigger] self.spaces@[i]).wf()
        &&& self.ids@.contains(0)
    }

    closed spec fn slot(&self, id: u32) -> int {
        choose|i: int| 0 <= i < self.ids@.len() && self.ids@[i] == id
    }

    /// The windows of each workspace, by workspace id.
    pub closed spec fn workspaces(&self) -> Map<u32, Seq<Window>> {
        Map::new(|id: u32| self.ids@.contains(id), |id: u32| self.spaces@[self.slot(id)]@)
    }

    /// The id of the active workspace.
    pub closed spec fn active(&self) -> u32 {
        self.ids@[self.current as int]
    }

    proof fn lemma_slot(&self, i: int)
        requires
            self.ids_unique(),
            0 <= i < self.ids@.len(),
        ensures
            self.slot(self.ids@[i]) == i,
    {
        let id = self.ids@[i];
        assert(self.ids@.contains(id));
        let j = self.slot(id);
        assert(0 <= j < self.ids@.len() && self.ids@[j] == id);
    }

    /// What a well-formed manager guarantees of its workspaces.
    pub proof fn lemma_wf(&self)
        requires
            self.wf(),
        ensures
            self.workspaces().dom().contains(self.active()),
            self.workspaces().dom().contains(0),
            forall|id: u32| #[trigger]
                self.workspaces().dom().contains(id) ==> strictly_increasing(self.workspaces()[id]),
    {
        assert(self.ids@.contains(self.active()));
        assert forall|id: u32| #[trigger]
            self.workspaces().dom().contains(id) implies strictly_increasing(self.workspaces()[id]) by {
            let j = self.slot(id);
            assert(self.spaces@[j].wf());
        }
    }

    proof fn lemma_replace_active(a: MiniWM, b: MiniWM)
        requires
            a.wf(),
            b.ids@ == a.ids@,
            b.current == a.current,
            b.spaces@.len() == a.spaces@.len(),
            forall|i: int| 0 <= i < a.spaces@.len() && i != a.current ==> b.spaces@[i] == a.spaces@[i],
            b.spaces@[a.current as int].wf(),
        ensures
            b.wf(),
            b.active() == a.active(),
            b.workspaces() == a.workspaces().insert(a.active(), b.spaces@[a.current as int]@),
    {
        let c = a.current as int;
        assert forall|i: int| 0 <= i < b.spaces@.len() implies (#[trigger] b.spaces@[i]).wf() by {
            if i != c {
                assert(a.spaces@[i].wf());
            }
        }
        a.lemma_slot(c);
        assert forall|id: u32| #[trigger] b.ids@.contains(id) && id != a.active() implies b.slot(id) == a.slot(id) && a.slot(id) != c by {
            let j = a.slot(id);
            assert(0 <= j < a.ids@.len() && a.ids@[j] == id);
            b.lemma_slot(j);
        }
        assert(b.workspaces() =~= a.workspaces().insert(a.active(), b.spaces@[c]@));
    }

    /// The active workspace.
    fn active_space(&self) -> (r: &Workspace)
        requires
            self.wf(),
        ensures
            r.wf(),
            r@ == self.workspaces()[self.active()],
    {
        proof {
            self.lemma_slot(self.current as int);
        }
        &self.spaces[self.current]
    }

    /// Adds `window` to the active workspace.
    fn add_to_active(&mut self, window: Window)
        requires
            old(self).wf(),
        ensures
            final(self).wf(),
            final(self).active() == old(self).active(),
            final(self).workspaces() == old(self).workspaces().insert(
                old(self).active(),
                final(self).workspaces()[old(self).active()],
            ),
            added(
                old(self).workspaces()[old(self).active()],
                final(self).workspaces()[old(self).active()],
                window,
            ),
    {
        let ghost a = *self;
        proof {
            self.lemma_slot(self.current as int);
        }
        let mut ws = self.spaces.remove(self.current);
        ws.add_window(window);
        self.spaces.insert(self.current, ws);
        proof {
            assert(self.spaces@ =~= a.spaces@.update(a.current as int, ws));
            MiniWM::lemma_replace_active(a, *self);
        }
    }

    /// Removes `window` from the active workspace.
    fn remove_from_active(&mut self, window: Window)
        requires
            old(self).wf(),
        ensures
            final(self).wf(),
            final(self).active() == old(self).active(),
            final(self).workspaces() == old(self).workspaces().insert(
                old(self).active(),
                final(self).workspaces()[old(self).active()],
            ),
            removed(
                old(self).workspaces()[old(self).active()],
                final(self).workspaces()[old(self).active()],
                window,
            ),
    {
        let ghost a = *self;
        proof {
            self.lemma_slot(self.current as int);
        }
        let mut ws = self.spaces.remove(self.current);
        ws.remove_window(&window);
        self.spaces.insert(self.current, ws);
        proof {
            assert(self.spaces@ =~= a.spaces@.update(a.current as int, ws));
            MiniWM::lemma_replace_active(a, *self);
        }
    }

    /// The position of workspace `id`, if it exists.
    fn find(&self, id: u32) -> (r: Option<usize>)
        requires
            self.wf(),
        ensures
            match r {
                Some(i) => i < self.ids@.len() && self.ids@[i as int] == id,
                None => !self.ids@.contains(id),
            },
    {
        let mut i: usize = 0;
        while i < self.ids.len()
            invariant
                i <= self.ids@.len(),
                forall|k: int| 0 <= k < i ==> self.ids@[k] != id,
            decreases self.ids@.len() - i,
        {
            if self.ids[i] == id {
                return Some(i);
            }
            i = i + 1;
        }
        None
    }

    /// A layout pass over the active workspace.
    pub fn layout(&self, screen: Result<Screen, WindowSystemError>) -> (r: Result<Vec<Command>, MiniWMError>)
        requires
            self.wf(),
        ensures
            result_view(r) == layout_pass(self.workspaces()[self.active()], screen),
    {
        let ws = self.active_space();
        if ws.is_empty() {
            return Ok(Vec::new());
        }
        match screen {
            Err(e) => Err(MiniWMError::from(e)),
            Ok(s) => {
                let placements = tile(ws.windows(), s);
                Ok(placement_commands(&placements))
            },
        }
    }

    /// One `Hide` for each window of the active workspace.
    fn hide_active(&self) -> (r: Vec<Command>)
        requires
            self.wf(),
        ensures
            r@ == hide_commands(self.workspaces()[self.active()]),
    {
        let windows = self.active_space().windows();
        let mut r: Vec<Command> = Vec::new();
        let mut i: usize = 0;
        while i < windows.len()
            invariant
                i <= windows@.len(),
                r@ == hide_commands(windows@).subrange(0, i as int),
            decreases windows@.len() - i,
        {
            r.push(Command::Hide(windows[i]));
            i = i + 1;
            proof {
                assert(r@ =~= hide_commands(windows@).subrange(0, i as int));
            }
        }
        assert(r@ =~= hide_commands(windows@));
        r
    }

    /// A manager with the single, empty, active workspace 0.
    pub fn new() -> (r: MiniWM)
        ensures
            r.wf(),
            r.workspaces() == map![0u32 => Seq::<Window>::empty()],
            r.active() == 0,
    {
        let mut ids: Vec<u32> = Vec::new();
        ids.push(0);
        let mut spaces: Vec<Workspace> = Vec::new();
        spaces.push(Workspace::new());
        let r = MiniWM { ids, spaces, current: 0 };
        proof {
            assert(r.ids@[0] == 0);
            r.lemma_slot(0);
            assert(r.workspaces() =~= map![0u32 => Seq::<Window>::empty()]);
        }
        r
    }
    /// Whether handling `event` now would lay out a non-empty workspace.
    pub fn needs_screen(&self, event: Event) -> (r: bool)
        requires
            self.wf(),
        ensures
            r == screen_needed(self.workspaces(), self.active(), event),
    {
        match event {
            Event::MapRequest(_) => true,
            Event::UnmapNotify(w) => {
                let windows = self.active_space().windows();
                let mut i: usize = 0;
                while i < windows.len()
                    invariant
                        i <= windows@.len(),
                        self.wf(),
                        windows@ == self.workspaces()[self.active()],
                        event == Event::UnmapNotify(w),
                        forall|k: int| 0 <= k < i ==> windows@[k] == w,
                    decreases windows@.len() - i,
                {
                    if windows[i] != w {
                        assert(self.workspaces()[self.active()][i as int] != w);
                        return true;
                    }
                    i = i + 1;
                }
                false
            },
            Event::KeyPress(code) => match workspace_for_key(code) {
                Some(id) => match self.find(id) {
                    Some(i) => {
                        proof {
                            self.lemma_slot(i as int);
                        }
                        self.spaces[i].len() > 0
                    },
                    None => false,
                },
                None => false,
            },
            _ => false,
        }
    }

    /// A window asks to be shown: it joins the active workspace, the
    /// workspace is laid out again, and the window is raised and shown.
    pub fn create_window(&mut self, window: Window, screen: Result<Screen, WindowSystemError>) -> (r: Outcome)
        requires
            old(self).wf(),
        ensures
            final(self).wf(),
            final(self).active() == old(self).active(),
            final(self).workspaces() == old(self).workspaces().insert(
                old(self).active(),
                final(self).workspaces()[old(self).active()],
            ),
            added(
                old(self).workspaces()[old(self).active()],
                final(self).workspaces()[old(self).active()],
                window,
            ),
            outcome_view(r) == created_output(
                final(self).workspaces()[final(self).active()],
                window,
                screen,
            ),
    {
        self.add_to_active(window);
        match self.layout(screen) {
            Err(e) => (Vec::new(), Err(e)),
            Ok(mut commands) => {
                let ghost c = commands@;
                commands.push(Command::Raise(window));
                commands.push(Command::Show(window));
                assert(commands@ =~= c + seq![Command::Raise(window), Command::Show(window)]);
                (commands, Ok(()))
            },
        }
    }

    /// A window left the screen: it leaves the active workspace, which is laid
    /// out again. A window that the active workspace does not hold changes nothing there.
    pub fn remove_window(&mut self, window: Window, screen: Result<Screen, WindowSystemError>) -> (r: Outcome)
        requires
            old(self).wf(),
        ensures
            final(self).wf(),
            final(self).active() == old(self).active(),
            final(self).workspaces() == old(self).workspaces().insert(
                old(self).active(),
                final(self).workspaces()[old(self).active()],
            ),
            removed(
                old(self).workspaces()[old(self).active()],
                final(self).workspaces()[old(self).active()],
                window,
            ),
            outcome_view(r) == relayout_output(final(self).workspaces()[final(self).active()], screen),
    {
        self.remove_from_active(window);
        match self.layout(screen) {
            Err(e) => (Vec::new(), Err(e)),
            Ok(commands) => (commands, Ok(())),
        }
    }

    /// Makes workspace `id` active, creating it empty if it is new.
    fn switch_to(&mut self, id: u32)
        requires
            old(self).wf(),
        ensures
            final(self).wf(),
            final(self).active() == id,
            final(self).workspaces() == switched(old(self).workspaces(), id),
    {
        let ghost a = *self;
        match self.find(id) {
            Some(i) => {
                self.current = i;
                proof {
                    assert(self.workspaces() =~= a.workspaces());
                }
            },
            None => {
                let fresh = Workspace::new();
                self.ids.push(id);
                self.spaces.push(fresh);
                self.current = self.ids.len() - 1;
                proof {
                    let n = a.ids@.len() as int;
                    assert(self.ids@[n] == id);
                    assert(self.ids_unique());
                    assert forall|k: int| 0 <= k < self.spaces@.len() implies (#[trigger] self.spaces@[k]).wf() by {
                        if k < n {
                            assert(a.spaces@[k].wf());
                        }
                    }
                    assert(a.ids@.contains(0));
                    let z = choose|k: int| 0 <= k < a.ids@.len() && a.ids@[k] == 0;
                    assert(self.ids@[z] == 0);
                    self.lemma_slot(n);
                    assert forall|x: u32| #[trigger] a.ids@.contains(x) implies self.slot(x) == a.slot(x) by {
                        let j = a.slot(x);
                        assert(0 <= j < a.ids@.len() && a.ids@[j] == x);
                        self.lemma_slot(j);
                    }
                    assert forall|x: u32| #[trigger] self.ids@.contains(x) implies a.ids@.contains(x) || x == id by {
                        let j = choose|k: int| 0 <= k < self.ids@.len() && self.ids@[k] == x;
                        if j < n {
                            assert(a.ids@[j] == x);
                        }
                    }
                    assert(self.spaces@[n]@ == Seq::<Window>::empty());
                    assert forall|x: u32| #[trigger] a.ids@.contains(x) implies self.workspaces()[x]
                        == a.workspaces()[x] by {
                        let j = a.slot(x);
                        assert(0 <= j < a.ids@.len() && a.ids@[j] == x);
                        assert(self.ids@[j] == x);
                        assert(self.ids@.contains(x));
                        self.lemma_slot(j);
                        assert(self.spaces@[j] == a.spaces@[j]);
                    }
                    assert(self.ids@.contains(id));
                    assert(self.workspaces()[id] == Seq::<Window>::empty());
                    assert forall|x: u32| #[trigger] a.ids@.contains(x) implies self.ids@.contains(x) by {
                        let j = choose|k: int| 0 <= k < a.ids@.len() && a.ids@[k] == x;
                        assert(self.ids@[j] == x);
                    }
                    assert(self.workspaces().dom() =~= a.workspaces().dom().insert(id));
                    assert(self.workspaces() =~= a.workspaces().insert(id, Seq::empty()));
                }
            },
        }
    }

    /// A key press: a code of the workspace band hides the windows of the
    /// active workspace, switches to the selected workspace and lays it out
    /// (twice over); any other code changes nothing. When a layout pass
    /// fails, the switch stands and the hide orders are still returned.
    pub fn handle_keypress(&mut self, code: u32, screen: Result<Screen, WindowSystemError>) -> (r: Outcome)
        requires
            old(self).wf(),
        ensures
            final(self).wf(),
            match key_workspace(code) {
                None => {
                    &&& final(self).workspaces() == old(self).workspaces()
                    &&& final(self).active() == old(self).active()
                    &&& outcome_view(r) == no_orders()
                },
                Some(id) => {
                    &&& final(self).workspaces() == switched(old(self).workspaces(), id)
                    &&& final(self).active() == id
                    &&& outcome_view(r) == switch_output(
                        old(self).workspaces()[old(self).active()],
                        final(self).workspaces()[id],
                        screen,
                    )
                },
            },
    {
        match workspace_for_key(code) {
            None => (Vec::new(), Ok(())),
            Some(id) => {
                let mut commands = self.hide_active();
                self.switch_to(id);
                let mut first = match self.layout(screen) {
                    Err(e) => {
                        return (commands, Err(e));
                    },
                    Ok(c) => c,
                };
                let mut second = match self.layout(screen) {
                    Err(e) => {
                        return (commands, Err(e));
                    },
                    Ok(c) => c,
                };
                commands.append(&mut first);
                commands.append(&mut second);
                (commands, Ok(()))
            },
        }
    }

    /// Handles one event from the display server and returns the orders it
    /// gives rise to, in order.
    pub fn handle_event(&mut self, event: Event, screen: Result<Screen, WindowSystemError>) -> (r: Outcome)
        requires
            old(self).wf(),
        ensures
            final(self).wf(),
            match event {
                Event::MapRequest(w) => {
                    &&& final(self).active() == old(self).active()
                    &&& final(self).workspaces() == old(self).workspaces().insert(
                        old(self).active(),
                        final(self).workspaces()[old(self).active()],
                    )
                    &&& added(
                        old(self).workspaces()[old(self).active()],
                        final(self).workspaces()[old(self).active()],
                        w,
                    )
                    &&& outcome_view(r) == created_output(
                        final(self).workspaces()[final(self).active()],
                        w,
                        screen,
                    )
                },
                Event::UnmapNotify(w) => {
                    &&& final(self).active() == old(self).active()
                    &&& final(self).workspaces() == old(self).workspaces().insert(
                        old(self).active(),
                        final(self).workspaces()[old(self).active()],
                    )
                    &&& removed(
                        old(self).workspaces()[old(self).active()],
                        final(self).workspaces()[old(self).active()],
                        w,
                    )
                    &&& outcome_view(r) == relayout_output(
                        final(self).workspaces()[final(self).active()],
                        screen,
                    )
                },
                Event::KeyPress(code) => match key_workspace(code) {
                    None => {
                        &&& final(self).workspaces() == old(self).workspaces()
                        &&& final(self).active() == old(self).active()
                        &&& outcome_view(r) == no_orders()
                    },
                    Some(id) => {
                        &&& final(self).workspaces() == switched(old(self).workspaces(), id)
                        &&& final(self).active() == id
                        &&& outcome_view(r) == switch_output(
                            old(self).workspaces()[old(self).active()],
                            final(self).workspaces()[id],
                            screen,
                        )
                    },
                },
                _ => {
                    &&& final(self).workspaces() == old(self).workspaces()
                    &&& final(self).active() == old(self).active()
                    &&& outcome_view(r) == no_orders()
                },
            },
    {
        match event {
            Event::MapRequest(w) => self.create_window(w, screen),
            Event::UnmapNotify(w) => self.remove_window(w, screen),
            Event::KeyPress(code) => self.handle_keypress(code, screen),
            Event::KeyRelease(_) => (Vec::new(), Ok(())),
            Event::Other => (Vec::new(), Ok(())),
        }
    }
}

} // verus!

verus! {

/// Some order in `c` shows `window`.
pub open spec fn shows(c: Seq<Command>, window: Window) -> bool {
    exists|i: int| 0 <= i < c.len() && c[i] == Command::Show(window)
}

/// Some order in `c` hides `window`.
pub open spec fn hides(c: Seq<Command>, window: Window) -> bool {
    exists|i: int| 0 <= i < c.len() && c[i] == Command::Hide(window)
}

proof fn lemma_pass_commands(p: Seq<Placement>)
    ensures
        pass_commands(p).len() == 3 * p.len(),
        forall|i: int| 0 <= i < pass_commands(p).len() ==> !(#[trigger] pass_commands(p)[i] is Hide),
        forall|w: Window|
            #[trigger] shows(pass_commands(p), w) <==> exists|k: int| 0 <= k < p.len() && p[k].window == w,
    decreases p.len(),
{
    if p.len() > 0 {
        let q = p.drop_last();
        lemma_pass_commands(q);
        let a = pass_commands(q);
        let b = place_commands(p.last());
        let c = pass_commands(p);
        assert(c == a + b);
        assert forall|i: int| 0 <= i < c.len() implies !(#[trigger] c[i] is Hide) by {
            if i < a.len() {
                assert(c[i] == a[i]);
            } else {
                assert(c[i] == b[i - a.len()]);
            }
        }
        assert forall|w: Window|
            #[trigger] shows(c, w) <==> exists|k: int| 0 <= k < p.len() && p[k].window == w by {
            if shows(c, w) {
                let i = choose|i: int| 0 <= i < c.len() && c[i] == Command::Show(w);
                if i < a.len() {
                    assert(a[i] == c[i]);
                    assert(shows(a, w));
                    let k = choose|k: int| 0 <= k < q.len() && q[k].window == w;
                    assert(p[k].window == w);
                } else {
                    assert(b[i - a.len()] == c[i]);
                    assert(p[p.len() - 1].window == w);
                }
            }
            if exists|k: int| 0 <= k < p.len() && p[k].window == w {
                let k = choose|k: int| 0 <= k < p.len() && p[k].window == w;
                if k < q.len() {
                    assert(q[k].window == w);
                    assert(shows(a, w));
                    let i = choose|i: int| 0 <= i < a.len() && a[i] == Command::Show(w);
                    assert(c[i] == a[i]);
                } else {
                    assert(c[a.len() as int + 2] == b[2]);
                }
            }
        }
    } else {
        assert forall|w: Window| !shows(pass_commands(p), w) by {}
    }
}

/// A workspace switch hides each window of the outgoing workspace exactly
/// once and no other window, shows the windows of the incoming workspace and
/// no other, and gives every hide before any show: a window ends up shown
/// exactly when it belongs to the incoming workspace.
pub proof fn lemma_switch_visibility(outgoing: Seq<Window>, incoming: Seq<Window>, screen: Screen)
    requires
        strictly_increasing(outgoing),
    ensures
        switch_output(outgoing, incoming, Ok(screen)).1 == Ok::<(), MiniWMError>(()),
        ({
            let c = switch_output(outgoing, incoming, Ok(screen)).0;
            &&& forall|i: int| 0 <= i < outgoing.len() ==> c[i] == Command::Hide(outgoing[i])
            &&& forall|i: int, j: int|
                0 <= i < c.len() && 0 <= j < c.len() && i != j && c[i] is Hide ==> c[i] != c[j]
            &&& forall|w: Window| hides(c, w) <==> outgoing.contains(w)
            &&& forall|w: Window| shows(c, w) <==> incoming.contains(w)
            &&& forall|i: int, j: int|
                0 <= i < c.len() && 0 <= j < c.len() && c[i] is Hide && c[j] is Show ==> i < j
        }),
{
    let t = tiling(incoming, screen);
    let p = pass_commands(t);
    lemma_pass_commands(t);
    let h = hide_commands(outgoing);
    assert(layout_pass(incoming, Ok(screen)) == Ok::<Seq<Command>, MiniWMError>(p)) by {
        if incoming.len() == 0 {
            assert(p =~= Seq::<Command>::empty());
        }
    }
    let c = h + p + p;
    let n = outgoing.len() as int;
    assert(switch_output(outgoing, incoming, Ok(screen)) == (c, Ok::<(), MiniWMError>(())));
    assert forall|i: int| 0 <= i < c.len() && i >= n implies !(#[trigger] c[i] is Hide) by {
        if i < n + p.len() {
            assert(c[i] == p[i - n]);
        } else {
            assert(c[i] == p[i - n - p.len()]);
        }
    }
    assert forall|i: int| 0 <= i < n implies #[trigger] c[i] == Command::Hide(outgoing[i]) by {}
    assert forall|i: int, j: int|
        0 <= i < c.len() && 0 <= j < c.len() && i != j && c[i] is Hide implies c[i] != c[j] by {
        assert(i < n);
        if j < n {
            assert(c[j] == Command::Hide(outgoing[j]));
        } else {
            assert(!(c[j] is Hide));
        }
    }
    assert forall|w: Window| hides(c, w) <==> outgoing.contains(w) by {
        if hides(c, w) {
            let i = choose|i: int| 0 <= i < c.len() && c[i] == Command::Hide(w);
            assert(i < n);
            assert(outgoing[i] == w);
        }
        if outgoing.contains(w) {
            let i = choose|i: int| 0 <= i < n && outgoing[i] == w;
            assert(c[i] == Command::Hide(w));
        }
    }
    assert forall|w: Window| shows(c, w) <==> incoming.contains(w) by {
        if shows(c, w) {
            let i = choose|i: int| 0 <= i < c.len() && c[i] == Command::Show(w);
            let k = if i < n + p.len() { i - n } else { i - n - p.len() };
            assert(i >= n);
            assert(p[k] == c[i]);
            assert(shows(p, w));
            let m = choose|m: int| 0 <= m < t.len() && t[m].window == w;
            assert(incoming[m] == w);
        }
        if incoming.contains(w) {
            let m = choose|m: int| 0 <= m < incoming.len() && incoming[m] == w;
            assert(t[m].window == w);
            assert(shows(p, w));
            let k = choose|k: int| 0 <= k < p.len() && p[k] == Command::Show(w);
            assert(c[n + k] == p[k]);
        }
    }
    assert forall|i: int, j: int|
        0 <= i < c.len() && 0 <= j < c.len() && c[i] is Hide && c[j] is Show implies i < j by {
        assert(i < n);
        if j < n {
            assert(c[j] == Command::Hide(outgoing[j]));
        }
    }
}

/// The orders of a layout pass come three to a placement, in order: move
/// the window to its place, resize it, show it.
pub proof fn lemma_pass_orders(p: Seq<Placement>)
    ensures
        pass_commands(p).len() == 3 * p.len(),
        forall|k: int|
            0 <= k < p.len() ==> {
                &&& pass_commands(p)[3 * k] == Command::Move {
                    window: (#[trigger] p[k]).window,
                    x: p[k].rect.x,
                    y: p[k].rect.y,
                }
                &&& pass_commands(p)[3 * k + 1] == Command::Resize {
                    window: p[k].window,
                    width: p[k].rect.width,
                    height: p[k].rect.height,
                }
                &&& pass_commands(p)[3 * k + 2] == Command::Show(p[k].window)
            },
    decreases p.len(),
{
    if p.len() > 0 {
        let q = p.drop_last();
        lemma_pass_orders(q);
        let a = pass_commands(q);
        let c = pass_commands(p);
        assert(c == a + place_commands(p.last()));
        assert forall|k: int| 0 <= k < p.len() implies {
            &&& c[3 * k] == Command::Move { window: (#[trigger] p[k]).window, x: p[k].rect.x, y: p[k].rect.y }
            &&& c[3 * k + 1] == Command::Resize {
                window: p[k].window,
                width: p[k].rect.width,
                height: p[k].rect.height,
            }
            &&& c[3 * k + 2] == Command::Show(p[k].window)
        } by {
            if k < q.len() {
                assert(q[k] == p[k]);
                assert(c[3 * k] == a[3 * k]);
                assert(c[3 * k + 1] == a[3 * k + 1]);
                assert(c[3 * k + 2] == a[3 * k + 2]);
            }
        }
    }
}

/// On a screen of non-negative width, the orders of a layout pass over a
/// workspace move and resize each of its windows, and no other, into a
/// column on the screen, and the columns of two windows never share a pixel.
pub proof fn lemma_layout_orders(windows: Seq<Window>, screen: Screen)
    requires
        screen.width >= 0,
    ensures
        pass_commands(tiling(windows, screen)).len() == 3 * windows.len(),
        forall|k: int|
            0 <= k < windows.len() ==> {
                &&& pass_commands(tiling(windows, screen))[3 * k] == Command::Move {
                    window: windows[k],
                    x: (#[trigger] tiling(windows, screen)[k]).rect.x,
                    y: 0,
                }
                &&& pass_commands(tiling(windows, screen))[3 * k + 1] == Command::Resize {
                    window: windows[k],
                    width: tiling(windows, screen)[k].rect.width,
                    height: screen.height as u32,
                }
                &&& pass_commands(tiling(windows, screen))[3 * k + 2] == Command::Show(windows[k])
                &&& 0 <= tiling(windows, screen)[k].rect.x
                &&& tiling(windows, screen)[k].rect.x + tiling(windows, screen)[k].rect.width
                    <= screen.width
            },
        forall|i: int, j: int|
            0 <= i < windows.len() && 0 <= j < windows.len() && i != j ==> {
                ||| (#[trigger] tiling(windows, screen)[i]).rect.x + tiling(windows, screen)[i].rect.width
                    <= tiling(windows, screen)[j].rect.x
                ||| (#[trigger] tiling(windows, screen)[j]).rect.x + tiling(windows, screen)[j].rect.width
                    <= tiling(windows, screen)[i].rect.x
            },
{
    let t = tiling(windows, screen);
    lemma_pass_orders(t);
    crate::layout::lemma_tiling_disjoint(windows, screen);
    assert forall|k: int| 0 <= k < windows.len() implies 0 <= (#[trigger] t[k]).rect.x && t[k].rect.x
        + t[k].rect.width <= screen.width by {
        assert(t[k] == t[k]);
    }
    assert forall|i: int, j: int|
        0 <= i < windows.len() && 0 <= j < windows.len() && i != j implies {
            ||| (#[trigger] t[i]).rect.x + t[i].rect.width <= t[j].rect.x
            ||| (#[trigger] t[j]).rect.x + t[j].rect.width <= t[i].rect.x
        } by {
        let c = column_width(windows.len(), screen.width as int);
        assert(t[i].rect.width == c && t[j].rect.width == c);
        assert(t[i].rect.x == i * c && t[j].rect.x == j * c);
        assert(c >= 0);
        if i < j {
            assert(i * c + c <= j * c) by (nonlinear_arith)
                requires
                    i < j,
                    0 <= c,
            ;
        } else {
            assert(j * c + c <= i * c) by (nonlinear_arith)
                requires
                    j < i,
                    0 <= c,
            ;
        }
    }
}

/// Leaving a workspace for any other and coming back finds every workspace,
/// the one left among them, with the windows it had.
pub proof fn lemma_switch_back(workspaces: Map<u32, Seq<Window>>, from: u32, to: u32)
    requires
        workspaces.dom().contains(from),
    ensures
        switched(switched(workspaces, to), from) == switched(workspaces, to),
        switched(switched(workspaces, to), from)[from] == workspaces[from],
        forall|id: u32| #[trigger]
            workspaces.dom().contains(id) ==> switched(switched(workspaces, to), from)[id]
                == workspaces[id],
{
}

} // verus!
