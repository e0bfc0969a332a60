use vstd::prelude::*;

verus! {

/// An opaque window identifier handed out by the display server.
pub type Window = u64;

/// A strictly increasing sequence: the ordered-set representation of a workspace.
pub open spec fn strictly_increasing(s: Seq<Window>) -> bool {
    forall|i: int, j: int| 0 <= i < j < s.len() ==> s[i] < s[j]
}

/// The windows of one workspace, kept as a set ordered by window identifier.
pub struct Workspace {
    windows: Vec<Window>,
}

impl View for Workspace {
    type V = Seq<Window>;

    closed spec fn view(&self) -> Seq<Window> {
        self.windows@
    }
}

impl Workspace {
    /// The windows are held in increasing order, each once.
    pub open spec fn wf(&self) -> bool {
        strictly_increasing(self@)
    }

    /// An empty workspace.
    pub fn new() -> (r: Workspace)
        ensures
            r.wf(),
            r@ == Seq::<Window>::empty(),
    {
        Workspace { windows: Vec::new() }
    }

    /// The windows in increasing order.
    pub fn windows(&self) -> (r: &Vec<Window>)
        ensures
            r@ == self@,
    {
        &self.windows
    }

    pub fn len(&self) -> (r: usize)
        ensures
            r == self@.len(),
    {
        self.windows.len()
    }

    pub fn is_empty(&self) -> (r: bool)
        ensures
            r == (self@.len() == 0),
    {
        self.windows.len() == 0
    }

    /// The first position whose window is not below `window`.
    fn position(&self, window: Window) -> (r: usize)
        requires
            self.wf(),
        ensures
            r <= self@.len(),
            forall|i: int| 0 <= i < r ==> self@[i] < window,
            forall|i: int| r <= i < self@.len() ==> self@[i] >= window,
    {
        let mut i: usize = 0;
        while i < self.windows.len() && self.windows[i] < window
            invariant
                self.wf(),
                i <= self@.len(),
                forall|k: int| 0 <= k < i ==> self@[k] < window,
            decreases self@.len() - i,
        {
            i = i + 1;
        }
        i
    }

    pub fn contains(&self, window: Window) -> (r: bool)
        requires
            self.wf(),
        ensures
            r == self@.contains(window),
    {
        let i = self.position(window);
        let r = i < self.windows.len() && self.windows[i] == window;
        proof {
            if !r && self@.contains(window) {
                let k = choose|k: int| 0 <= k < self@.len() && self@[k] == window;
                if k >= i {
                    assert(self@[i as int] <= self@[k]);
                }
            }
        }
        r
    }

    /// Adds `window`; a window already present leaves the workspace as it is.
    pub fn add_window(&mut self, window: Window)
        requires
            old(self).wf(),
        ensures
            final(self).wf(),
            final(self)@.to_set() == old(self)@.to_set().insert(window),
            old(self)@.contains(window) ==> final(self)@ == old(self)@,
    {
        let i = self.position(window);
        if i < self.windows.len() && self.windows[i] == window {
            return;
        }
        proof {
            if self@.contains(window) {
                let k = choose|k: int| 0 <= k < self@.len() && self@[k] == window;
                if k >= i {
                    assert(self@[i as int] <= self@[k]);
                }
            }
        }
        let ghost before = self@;
        self.windows.insert(i, window);
        proof {
            assert(self@ == before.insert(i as int, window));
            assert forall|a: int, b: int| 0 <= a < b < self@.len() implies self@[a] < self@[b] by {
                if b < i {
                } else if b == i {
                } else if a < i {
                    assert(self@[b] == before[b - 1]);
                } else if a == i {
                    assert(self@[b] == before[b - 1]);
                } else {
                    assert(self@[a] == before[a - 1]);
                }
            }
            assert(self@.to_set() =~= before.to_set().insert(window)) by {
                assert forall|w: Window| self@.to_set().contains(w) <==> before.to_set().insert(window).contains(w) by {
                    if self@.contains(w) {
                        let k = choose|k: int| 0 <= k < self@.len() && self@[k] == w;
                        if k < i {
                            assert(before[k] == w);
                        } else if k > i {
                            assert(before[k - 1] == w);
                        }
                    }
                    if before.contains(w) {
                        let k = choose|k: int| 0 <= k < before.len() && before[k] == w;
                        if k < i {
                            assert(self@[k] == w);
                        } else {
                            assert(self@[k + 1] == w);
                        }
                    }
                    if w == window {
                        assert(self@[i as int] == w);
                    }
                }
            }
        }
    }

    /// Removes `window`; a window that is not present leaves the workspace as it is.
    pub fn remove_window(&mut self, window: &Window)
        requires
            old(self).wf(),
        ensures
            final(self).wf(),
            final(self)@.to_set() == old(self)@.to_set().remove(*window),
            !old(self)@.contains(*window) ==> final(self)@ == old(self)@,
    {
        let window = *window;
        let i = self.position(window);
        if !(i < self.windows.len() && self.windows[i] == window) {
            proof {
                if self@.contains(window) {
                    let k = choose|k: int| 0 <= k < self@.len() && self@[k] == window;
                    if k >= i {
                        assert(self@[i as int] <= self@[k]);
                    }
                }
                assert(self@.to_set() =~= self@.to_set().remove(window));
            }
            return;
        }
        let ghost before = self@;
        self.windows.remove(i);
        proof {
            assert(self@ == before.remove(i as int));
            assert forall|a: int, b: int| 0 <= a < b < self@.len() implies self@[a] < self@[b] by {
                if a < i && b >= i {
                    assert(self@[b] == before[b + 1]);
                }
                if a >= i {
                    assert(self@[a] == before[a + 1]);
                    assert(self@[b] == before[b + 1]);
                }
            }
            assert(self@.to_set() =~= before.to_set().remove(window)) by {
                assert forall|w: Window| self@.to_set().contains(w) <==> before.to_set().remove(window).contains(w) by {
                    if self@.contains(w) {
                        let k = choose|k: int| 0 <= k < self@.len() && self@[k] == w;
                        if k < i {
                            assert(before[k] == w);
                            assert(before[k] < before[i as int]);
                        } else {
                            assert(before[k + 1] == w);
                            assert(before[i as int] < before[k + 1]);
                        }
                    }
                    if before.contains(w) && w != window {
                        let k = choose|k: int| 0 <= k < before.len() && before[k] == w;
                        if k < i {
                            assert(self@[k] == w);
                        } else {
                            assert(k != i);
                            assert(self@[k - 1] == w);
                        }
                    }
                }
            }
        }
    }
}

} // verus!
