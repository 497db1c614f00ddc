use vstd::prelude::*;

verus! {

/// The default bound on the length of either history stack. A state can then
/// hold at most `2 * MAX_WINDOWS + 1` windows.
pub const MAX_WINDOWS: usize = 15;

/// The sequence `s` with every occurrence of `id` taken out.
pub open spec fn without(s: Seq<i64>, id: i64) -> Seq<i64> {
    s.filter(|x: i64| x != id)
}

/// The newest `max` entries of `s` (the end of the sequence is the newest).
pub open spec fn clamped(s: Seq<i64>, max: nat) -> Seq<i64> {
    if s.len() > max {
        s.subrange(s.len() - max, s.len() as int)
    } else {
        s
    }
}

/// The stack `s` after the window `cur` (if any) has been moved onto its top:
/// any older occurrence is removed first, and the result is clamped to `max`.
pub open spec fn shifted_in(s: Seq<i64>, cur: Option<i64>, max: nat) -> Seq<i64> {
    match cur {
        Some(c) => clamped(without(s, c).push(c), max),
        None => s,
    }
}

proof fn lemma_without_push(s: Seq<i64>, x: i64, id: i64)
    ensures
        without(s.push(x), id) == (if x != id {
            without(s, id).push(x)
        } else {
            without(s, id)
        }),
{
    reveal(Seq::filter);
    assert(s.push(x).drop_last() =~= s);
}

proof fn lemma_without(s: Seq<i64>, id: i64)
    ensures
        forall|x: i64| #[trigger] without(s, id).contains(x) <==> (s.contains(x) && x != id),
        s.no_duplicates() ==> without(s, id).no_duplicates(),
        without(s, id).len() <= s.len(),
        !s.contains(id) ==> without(s, id) == s,
    decreases s.len(),
{
    if s.len() > 0 {
        let t = s.drop_last();
        let x = s.last();
        lemma_without(t, id);
        assert(s =~= t.push(x));
        lemma_without_push(t, x, id);
        lemma_push_unique_contains(t, x);
        lemma_push_unique_contains(without(t, id), x);
        if s.no_duplicates() {
            lemma_drop_last(s);
            if x != id {
                lemma_push_unique(without(t, id), x);
            }
        }
    } else {
        assert(without(s, id) =~= s) by {
            reveal(Seq::filter);
        }
    }
}

proof fn lemma_push_unique(s: Seq<i64>, x: i64)
    requires
        s.no_duplicates(),
        !s.contains(x),
    ensures
        s.push(x).no_duplicates(),
        forall|y: i64| #[trigger] s.push(x).contains(y) <==> (s.contains(y) || y == x),
{
    lemma_push_unique_contains(s, x);
}

proof fn lemma_drop_last(s: Seq<i64>)
    requires
        s.len() > 0,
        s.no_duplicates(),
    ensures
        s.drop_last().no_duplicates(),
        !s.drop_last().contains(s.last()),
        forall|y: i64| #[trigger] s.contains(y) <==> (s.drop_last().contains(y) || y == s.last()),
{
    let t = s.drop_last();
    assert(s =~= t.push(s.last()));
    lemma_push_unique_contains(t, s.last());
    assert forall|i: int, j: int| 0 <= i < t.len() && 0 <= j < t.len() && i != j implies t[i]
        != t[j] by {
        assert(t[i] == s[i] && t[j] == s[j]);
    }
    if t.contains(s.last()) {
        let k = choose|k: int| 0 <= k < t.len() && t[k] == s.last();
        assert(s[k] == s[s.len() - 1]);
    }
}

proof fn lemma_clamped(s: Seq<i64>, max: nat)
    ensures
        clamped(s, max).len() <= max || clamped(s, max) == s,
        clamped(s, max).len() <= s.len(),
        forall|y: i64| #[trigger] clamped(s, max).contains(y) ==> s.contains(y),
        s.no_duplicates() ==> clamped(s, max).no_duplicates(),
{
    if s.len() > max {
        let start = s.len() - max;
        let r = clamped(s, max);
        assert forall|y: i64| #[trigger] r.contains(y) implies s.contains(y) by {
            let k = choose|k: int| 0 <= k < r.len() && r[k] == y;
            assert(s[k + start] == y);
        }
        if s.no_duplicates() {
            assert forall|i: int, j: int|
                0 <= i < r.len() && 0 <= j < r.len() && i != j implies r[i] != r[j] by {
                assert(r[i] == s[i + start] && r[j] == s[j + start]);
            }
        }
    }
}

proof fn lemma_shifted_in(s: Seq<i64>, cur: Option<i64>, max: nat)
    requires
        s.no_duplicates(),
    ensures
        shifted_in(s, cur, max).no_duplicates(),
        cur is Some ==> shifted_in(s, cur, max).len() <= max,
        cur is None ==> shifted_in(s, cur, max) == s,
        forall|y: i64| #[trigger]
            shifted_in(s, cur, max).contains(y) ==> s.contains(y) || cur == Some(y),
{
    if let Some(c) = cur {
        lemma_without(s, c);
        let w = without(s, c);
        lemma_push_unique(w, c);
        lemma_clamped(w.push(c), max);
    }
}

/// A direction of travel through the history.
#[derive(Clone, Copy, Debug, PartialEq, Eq, Structural)]
pub enum Direction {
    /// Toward windows focused earlier.
    Backward,
    /// Back toward windows that a backward move stepped over.
    Forward,
}

impl Direction {
    pub open spec fn spec_opposite(self) -> Direction {
        match self {
            Direction::Backward => Direction::Forward,
            Direction::Forward => Direction::Backward,
        }
    }

    /// The direction that undoes a move in this one.
    #[verifier::when_used_as_spec(spec_opposite)]
    pub fn opposite(self) -> (r: Direction)
        ensures
            r == self.spec_opposite(),
    {
        match self {
            Direction::Backward => Direction::Forward,
            Direction::Forward => Direction::Backward,
        }
    }
}

/// An event for the history engine, from the window manager or from a user
/// command. A window is known by its id.
#[derive(Clone, Copy, Debug, PartialEq, Eq, Structural)]
pub enum Event {
    /// The user asked the program to stop.
    Exit,
    /// The user asked to move forward in the history.
    Forward,
    /// The user asked to move backward in the history.
    Backward,
    /// The user asked to undo the last move.
    Last,
    /// The window manager reports that this window gained focus.
    FocusChanged(i64),
    /// The window manager reports that this window was closed.
    WindowClosed(i64),
}

/// What the event loop does after an event has been handled.
#[derive(Clone, Copy, Debug, PartialEq, Eq, Structural)]
pub enum Step {
    /// Stop the loop.
    Exit,
    /// Ask the window manager to focus this window.
    Focus(i64),
    /// Nothing to send; wait for the next event.
    Idle,
}

/// The navigation history.
pub struct State {
    /// Windows the user has moved away from, the most recent last.
    pub previous: Vec<i64>,
    /// Windows stepped over by backward moves, the most recent last; a
    /// forward move takes them back.
    pub newer: Vec<i64>,
    /// The window that this state last asked to focus, until the window
    /// manager reports a focus change.
    pub ench_winid: Option<i64>,
    /// The direction of the last move: explicit, or `Forward` for a focus
    /// change that the user made.
    pub last_enchant: Option<Direction>,
    /// The window believed to have focus.
    pub current: Option<i64>,
    /// The bound on the length of either stack.
    pub max_history_depth: usize,
}

/// `pre` and `post` hold the same history.
pub open spec fn unchanged(pre: State, post: State) -> bool {
    &&& post.previous@ == pre.previous@
    &&& post.newer@ == pre.newer@
    &&& post.ench_winid == pre.ench_winid
    &&& post.last_enchant == pre.last_enchant
    &&& post.current == pre.current
    &&& post.max_history_depth == pre.max_history_depth
}

/// `post` is `pre` after the window manager reported that `id` gained focus.
pub open spec fn focus_post(pre: State, post: State, id: i64) -> bool {
    &&& post.max_history_depth == pre.max_history_depth
    &&& post.ench_winid == None::<i64>
    &&& if pre.ench_winid == Some(id) {
        // the move this state asked for has happened: the stacks stay
        &&& post.previous@ == pre.previous@
        &&& post.newer@ == pre.newer@
        &&& post.last_enchant == pre.last_enchant
        &&& post.current == pre.current
    } else {
        &&& post.previous@ == without(
            shifted_in(pre.previous@, pre.current, pre.max_history_depth as nat),
            id,
        )
        &&& post.newer@ == without(
            if pre.current is Some {
                Seq::empty()
            } else {
                pre.newer@
            },
            id,
        )
        &&& post.last_enchant == Some(Direction::Forward)
        &&& post.current == Some(id)
    }
}

/// `post` is `pre` after the window `id` was closed.
pub open spec fn close_post(pre: State, post: State, id: i64) -> bool {
    &&& post.previous@ == without(pre.previous@, id)
    &&& post.newer@ == without(pre.newer@, id)
    &&& post.current == (if pre.current == Some(id) {
        None
    } else {
        pre.current
    })
    &&& post.ench_winid == (if pre.ench_winid == Some(id) {
        None
    } else {
        pre.ench_winid
    })
    &&& post.last_enchant == pre.last_enchant
    &&& post.max_history_depth == pre.max_history_depth
}

/// `post` and `r` are the state and the window to focus after a move from
/// `pre` in direction `dir`.
pub open spec fn seek_post(pre: State, post: State, dir: Direction, r: Option<i64>) -> bool {
    let src = pre.source(dir);
    if src.len() == 0 {
        r == None::<i64> && unchanged(pre, post)
    } else {
        &&& r == Some(src.last())
        &&& post.source(dir) == src.drop_last()
        &&& post.destination(dir) == shifted_in(
            pre.destination(dir),
            pre.current,
            pre.max_history_depth as nat,
        )
        &&& post.current == Some(src.last())
        &&& post.ench_winid == Some(src.last())
        &&& post.last_enchant == Some(dir)
        &&& post.max_history_depth == pre.max_history_depth
    }
}

/// `post` and `r` are the state and the window to focus after a request to
/// undo the last move from `pre`.
pub open spec fn repeat_post(pre: State, post: State, r: Option<i64>) -> bool {
    match pre.last_enchant {
        None => r == None::<i64> && unchanged(pre, post),
        Some(d) => seek_post(pre, post, d.opposite(), r),
    }
}

/// The window that a move from `pre` in direction `dir` asks to focus.
pub open spec fn seek_result(pre: State, dir: Direction) -> Option<i64> {
    if pre.source(dir).len() == 0 {
        None
    } else {
        Some(pre.source(dir).last())
    }
}

/// The window that a request to undo the last move from `pre` asks to focus.
pub open spec fn repeat_result(pre: State) -> Option<i64> {
    match pre.last_enchant {
        None => None,
        Some(d) => seek_result(pre, d.opposite()),
    }
}

/// `post` and `r` are the state and the next step of the event loop after
/// `event` was handled in `pre`.
pub open spec fn handle_post(pre: State, post: State, event: Event, r: Step) -> bool {
    match event {
        Event::Exit => r == Step::Exit && unchanged(pre, post),
        Event::FocusChanged(id) => r == Step::Idle && focus_post(pre, post, id),
        Event::WindowClosed(id) => r == Step::Idle && close_post(pre, post, id),
        Event::Forward => {
            let o = seek_result(pre, Direction::Forward);
            r == step_of(o) && seek_post(pre, post, Direction::Forward, o)
        },
        Event::Backward => {
            let o = seek_result(pre, Direction::Backward);
            r == step_of(o) && seek_post(pre, post, Direction::Backward, o)
        },
        Event::Last => {
            let o = repeat_result(pre);
            r == step_of(o) && repeat_post(pre, post, o)
        },
    }
}

/// The step for an optional window to focus.
pub open spec fn step_of(o: Option<i64>) -> Step {
    match o {
        Some(w) => Step::Focus(w),
        None => Step::Idle,
    }
}

impl State {
    /// The stack that a move in direction `dir` takes its window from.
    pub open spec fn source(self, dir: Direction) -> Seq<i64> {
        match dir {
            Direction::Backward => self.previous@,
            Direction::Forward => self.newer@,
        }
    }

    /// The stack that a move in direction `dir` puts the current window on.
    pub open spec fn destination(self, dir: Direction) -> Seq<i64> {
        match dir {
            Direction::Backward => self.newer@,
            Direction::Forward => self.previous@,
        }
    }

    /// No window id occurs twice across `previous`, `newer` and `current`.
    pub open spec fn unique_windows(&self) -> bool {
        &&& self.previous@.no_duplicates()
        &&& self.newer@.no_duplicates()
        &&& forall|x: i64| #[trigger] self.previous@.contains(x) ==> !self.newer@.contains(x)
        &&& (self.current matches Some(c) ==> !self.previous@.contains(c)
            && !self.newer@.contains(c))
    }

    /// Neither stack is longer than the configured depth.
    pub open spec fn within_bounds(&self) -> bool {
        &&& self.previous@.len() <= self.max_history_depth
        &&& self.newer@.len() <= self.max_history_depth
    }

    /// The state is consistent: its windows are unique, its stacks bounded,
    /// and a requested focus is the window held as current.
    pub open spec fn wf(&self) -> bool {
        &&& self.unique_windows()
        &&& self.within_bounds()
        &&& (self.ench_winid is Some ==> self.current == self.ench_winid)
    }

    /// An empty history whose stacks hold at most `MAX_WINDOWS` windows.
    pub fn new() -> (r: State)
        ensures
            r.wf(),
            r.previous@ == Seq::<i64>::empty(),
            r.newer@ == Seq::<i64>::empty(),
            r.ench_winid == None::<i64>,
            r.last_enchant == None::<Direction>,
            r.current == None::<i64>,
            r.max_history_depth == MAX_WINDOWS,
    {
        State::with_max_history_depth(MAX_WINDOWS)
    }

    /// An empty history whose stacks hold at most `depth` windows.
    pub fn with_max_history_depth(depth: usize) -> (r: State)
        ensures
            r.wf(),
            r.previous@ == Seq::<i64>::empty(),
            r.newer@ == Seq::<i64>::empty(),
            r.ench_winid == None::<i64>,
            r.last_enchant == None::<Direction>,
            r.current == None::<i64>,
            r.max_history_depth == depth,
    {
        State {
            previous: Vec::new(),
            newer: Vec::new(),
            ench_winid: None,
            last_enchant: None,
            current: None,
            max_history_depth: depth,
        }
    }

    /// Drops the oldest entries of `vec` until at most `max` remain.
    fn clamp(vec: &mut Vec<i64>, max: usize)
        ensures
            final(vec)@ == clamped(old(vec)@, max as nat),
    {
        let len = vec.len();
        if len > max {
            let start = len - max;
            let mut kept: Vec<i64> = Vec::new();
            let mut i: usize = start;
            while i < len
                invariant
                    start <= i <= len,
                    len == vec@.len(),
                    kept@ == vec@.subrange(start as int, i as int),
                decreases len - i,
            {
                kept.push(vec[i]);
                assert(vec@.subrange(start as int, i + 1) =~= vec@.subrange(
                    start as int,
                    i as int,
                ).push(vec@[i as int]));
                i += 1;
            }
            *vec = kept;
        }
    }

    /// Removes `window_id` from `vec`; tells whether it was there.
    fn remove_from_vec(vec: &mut Vec<i64>, window_id: i64) -> (found: bool)
        ensures
            final(vec)@ == without(old(vec)@, window_id),
            found == old(vec)@.contains(window_id),
    {
        let mut kept: Vec<i64> = Vec::new();
        let mut found = false;
        let mut i: usize = 0;
        while i < vec.len()
            invariant
                i <= vec@.len(),
                kept@ == without(vec@.take(i as int), window_id),
                found == vec@.take(i as int).contains(window_id),
            decreases vec@.len() - i,
        {
            let id = vec[i];
            proof {
                let t = vec@.take(i as int);
                assert(vec@.take(i + 1) =~= t.push(id));
                lemma_without_push(t, id, window_id);
                lemma_push_unique_contains(t, id);
            }
            if id == window_id {
                found = true;
            } else {
                kept.push(id);
            }
            i += 1;
        }
        assert(vec@.take(vec@.len() as int) =~= vec@);
        *vec = kept;
        found
    }

    /// Moves `cur`, if any, onto the top of `stack`, keeping it unique and
    /// bounded by `max`.
    fn shift_in(stack: &mut Vec<i64>, cur: Option<i64>, max: usize)
        ensures
            final(stack)@ == shifted_in(old(stack)@, cur, max as nat),
    {
        if let Some(c) = cur {
            State::remove_from_vec(stack, c);
            stack.push(c);
            State::clamp(stack, max);
        }
    }
}

impl State {
    /// Records that the window `id` was closed: it leaves both stacks,
    /// stops being current, and stops being awaited as a requested focus.
    pub fn purge(&mut self, id: i64)
        requires
            old(self).wf(),
        ensures
            final(self).wf(),
            close_post(*old(self), *final(self), id),
    {
        proof {
            lemma_without(self.previous@, id);
            lemma_without(self.newer@, id);
        }
        State::remove_from_vec(&mut self.previous, id);
        State::remove_from_vec(&mut self.newer, id);
        if let Some(current) = self.current {
            if current == id {
                self.current = None;
            }
        }
        if let Some(pending) = self.ench_winid {
            if pending == id {
                self.ench_winid = None;
            }
        }
    }

    /// Moves one step forward in the history; returns the window to focus.
    pub fn next(&mut self) -> (r: Option<i64>)
        requires
            old(self).wf(),
        ensures
            final(self).wf(),
            seek_post(*old(self), *final(self), Direction::Forward, r),
    {
        self.seek(Direction::Forward)
    }

    /// Moves one step backward in the history; returns the window to focus.
    pub fn prev(&mut self) -> (r: Option<i64>)
        requires
            old(self).wf(),
        ensures
            final(self).wf(),
            seek_post(*old(self), *final(self), Direction::Backward, r),
    {
        self.seek(Direction::Backward)
    }

    /// Undoes the last move by moving the opposite way; returns the window to
    /// focus. Does nothing when no move has been made yet.
    pub fn repeat_last(&mut self) -> (r: Option<i64>)
        requires
            old(self).wf(),
        ensures
            final(self).wf(),
            repeat_post(*old(self), *final(self), r),
    {
        match self.last_enchant {
            None => None,
            Some(dir) => self.seek(dir.opposite()),
        }
    }

    /// Records that the window manager focused `window_id`. A focus change
    /// that this state asked for leaves the history as it is; any other one
    /// puts the current window on the `previous` stack and drops the
    /// forward history.
    pub fn add_window(&mut self, window_id: i64)
        requires
            old(self).wf(),
        ensures
            final(self).wf(),
            focus_post(*old(self), *final(self), window_id),
    {
        if let Some(ench_winid) = self.ench_winid {
            if ench_winid == window_id {
                self.ench_winid = None;
                return;
            } else {
                self.ench_winid = None;
            }
        }
        proof {
            lemma_shifted_in(self.previous@, self.current, self.max_history_depth as nat);
        }
        if let Some(current) = self.current {
            State::shift_in(&mut self.previous, Some(current), self.max_history_depth);
            self.newer.clear();
        }
        proof {
            lemma_without(self.previous@, window_id);
            lemma_without(self.newer@, window_id);
        }
        State::remove_from_vec(&mut self.previous, window_id);
        State::remove_from_vec(&mut self.newer, window_id);
        self.last_enchant = Some(Direction::Forward);
        self.current = Some(window_id);
    }

    /// Takes the window on top of the source stack of `dir`, puts the current
    /// window on the other stack, and asks for the taken window to be focused.
    fn seek(&mut self, dir: Direction) -> (r: Option<i64>)
        requires
            old(self).wf(),
        ensures
            final(self).wf(),
            seek_post(*old(self), *final(self), dir, r),
    {
        let ghost pre = *self;
        proof {
            lemma_shifted_in(self.destination(dir), self.current, self.max_history_depth as nat);
        }
        let target = match dir {
            Direction::Backward => {
                match self.previous.pop() {
                    None => return None,
                    Some(win_id) => {
                        State::shift_in(&mut self.newer, self.current, self.max_history_depth);
                        win_id
                    },
                }
            },
            Direction::Forward => {
                match self.newer.pop() {
                    None => return None,
                    Some(win_id) => {
                        State::shift_in(&mut self.previous, self.current, self.max_history_depth);
                        win_id
                    },
                }
            },
        };
        proof {
            lemma_drop_last(pre.source(dir));
        }
        self.ench_winid = Some(target);
        self.last_enchant = Some(dir);
        self.current = Some(target);
        proof {
            let src = pre.source(dir);
            assert forall|x: i64| #[trigger] self.source(dir).contains(x) implies !self.destination(
                dir,
            ).contains(x) by {
                assert(src.contains(x));
                assert(x != target);
            }
            assert(src.contains(target));
            assert(!self.destination(dir).contains(target));
            assert forall|x: i64| #[trigger] self.previous@.contains(x) implies !self.newer@.contains(
                x,
            ) by {
                match dir {
                    Direction::Backward => assert(self.source(dir).contains(x)),
                    Direction::Forward => {
                        if self.newer@.contains(x) {
                            assert(self.source(dir).contains(x));
                        }
                    },
                }
            }
        }
        Some(target)
    }
}

impl State {
    /// Applies one event to the history and tells the event loop what to do
    /// next: stop, focus a window, or wait for the next event.
    pub fn handle(&mut self, event: Event) -> (r: Step)
        requires
            old(self).wf(),
        ensures
            final(self).wf(),
            handle_post(*old(self), *final(self), event, r),
    {
        match event {
            Event::Exit => Step::Exit,
            Event::Forward => State::step_for(self.next()),
            Event::Backward => State::step_for(self.prev()),
            Event::Last => State::step_for(self.repeat_last()),
            Event::FocusChanged(id) => {
                self.add_window(id);
                Step::Idle
            },
            Event::WindowClosed(id) => {
                self.purge(id);
                Step::Idle
            },
        }
    }

    fn step_for(o: Option<i64>) -> (r: Step)
        ensures
            r == step_of(o),
    {
        match o {
            Some(w) => Step::Focus(w),
            None => Step::Idle,
        }
    }
}

/// A backward move followed by a forward move, each confirmed by the window
/// manager's report that the requested window gained focus, brings back the
/// current window and the `previous` stack; the `newer` stack comes back too
/// unless it was full, in which case its oldest entry was dropped.
pub proof fn lemma_back_then_forward(
    s0: State,
    s1: State,
    s2: State,
    s3: State,
    s4: State,
    c: i64,
    r1: Option<i64>,
    r2: Option<i64>,
)
    requires
        s0.wf(),
        s0.current == Some(c),
        s0.previous@.len() > 0,
        seek_post(s0, s1, Direction::Backward, r1),
        focus_post(s1, s2, s0.previous@.last()),
        seek_post(s2, s3, Direction::Forward, r2),
        focus_post(s3, s4, c),
    ensures
        r1 == Some(s0.previous@.last()),
        r2 == Some(c),
        s4.current == Some(c),
        s4.previous@ == s0.previous@,
        s4.ench_winid == None::<i64>,
        s4.last_enchant == Some(Direction::Forward),
        s0.newer@.len() < s0.max_history_depth ==> s4.newer@ == s0.newer@,
{
    let p = s0.previous@;
    let n = s0.newer@;
    let b = p.last();
    let max = s0.max_history_depth as nat;
    lemma_without(n, c);
    assert(without(n, c) == n);
    assert(s2.newer@ == clamped(n.push(c), max));
    assert(s2.newer@.len() > 0);
    assert(s2.newer@.last() == c);
    let pd = p.drop_last();
    lemma_drop_last(p);
    lemma_without(pd, b);
    assert(pd.push(b) =~= p);
    assert(s3.previous@ == p);
    if n.len() < max {
        assert(clamped(n.push(c), max).drop_last() =~= n);
    }
}

/// When the window manager confirms the window that a move asked for, the
/// report changes nothing but the awaited focus: the stacks stay as the move
/// left them and the requested window stays current.
pub proof fn lemma_confirmed_move(s0: State, s1: State, s2: State, dir: Direction, w: i64)
    requires
        s0.wf(),
        seek_post(s0, s1, dir, Some(w)),
        focus_post(s1, s2, w),
    ensures
        s2.previous@ == s1.previous@,
        s2.newer@ == s1.newer@,
        s2.current == Some(w),
        s2.ench_winid == None::<i64>,
        !s2.previous@.contains(w),
        !s2.newer@.contains(w),
{
    let src = s0.source(dir);
    lemma_drop_last(src);
    lemma_shifted_in(s0.destination(dir), s0.current, s0.max_history_depth as nat);
    assert(src[src.len() - 1] == w);
    assert(src.contains(w));
    assert(!s0.destination(dir).contains(w)) by {
        match dir {
            Direction::Backward => {},
            Direction::Forward => {
                if s0.previous@.contains(w) {
                    assert(!s0.newer@.contains(w));
                }
            },
        }
    }
}

proof fn lemma_push_unique_contains(s: Seq<i64>, x: i64)
    ensures
        forall|y: i64| #[trigger] s.push(x).contains(y) <==> (s.contains(y) || y == x),
{
    assert forall|y: i64| #[trigger] s.push(x).contains(y) <==> (s.contains(y) || y == x) by {
        if s.contains(y) {
            let k = choose|k: int| 0 <= k < s.len() && s[k] == y;
            assert(s.push(x)[k] == y);
        }
        if y == x {
            assert(s.push(x)[s.len() as int] == y);
        }
        if s.push(x).contains(y) {
            let k = choose|k: int| 0 <= k < s.len() + 1 && s.push(x)[k] == y;
            if k < s.len() {
                assert(s[k] == y);
            }
        }
    }
}

} // verus!
