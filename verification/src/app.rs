use vstd::prelude::*;

use crate::anim::{Animation, Pulse};
use crate::tree::{
    agree_off_path, dirs_along, is_stable_sort, lemma_agree_off_path_entries, lemma_agree_off_path_keeps_path, lemma_path_ok_prefix, node_at,
    path_ok, same_entry, DirNode,
};

verus! {

/// How long the reveal animation runs after the view changes.
pub const VIEW_ANIM_MS: u64 = 380;

/// The order in which a directory's entries are listed.
#[derive(Clone, Copy, PartialEq, Eq, Structural, Debug)]
pub enum SortMode {
    Size,
    Name,
    Modified,
}

/// Which panel fills the lower half of the screen.
#[derive(Clone, Copy, PartialEq, Eq, Structural, Debug)]
pub enum BottomPanel {
    Treemap,
    Types,
}

/// The sort order that follows `m`: size, then name, then modified, then size.
pub open spec fn next_sort(m: SortMode) -> SortMode {
    match m {
        SortMode::Size => SortMode::Name,
        SortMode::Name => SortMode::Modified,
        SortMode::Modified => SortMode::Size,
    }
}

/// The panel that is not `p`.
pub open spec fn other_panel(p: BottomPanel) -> BottomPanel {
    match p {
        BottomPanel::Treemap => BottomPanel::Types,
        BottomPanel::Types => BottomPanel::Treemap,
    }
}

/// The names of the nodes along `path` from `n`, separated by " / ".
pub open spec fn crumbs(n: DirNode, path: Seq<usize>) -> Seq<char>
    decreases path.len(),
{
    if path.len() == 0 {
        n.name@
    } else {
        crumbs(n, path.drop_last()) + " / "@ + node_at(n, path).name@
    }
}

/// The browser's state: the scanned tree, the path from the root to the
/// directory on screen, the selected row and the view settings.
pub struct App {
    pub root: DirNode,
    pub nav_stack: Vec<usize>,
    /// The row selected at each level above, restored on going back.
    pub selected_stack: Vec<usize>,
    pub selected: usize,
    pub sort_mode: SortMode,
    pub bottom_panel: BottomPanel,
    pub status: Option<String>,
    pub anim: Animation,
    pub pulse: Pulse,
}

impl App {
    /// The selection to come back to at each level is the index that was
    /// opened there.
    pub open spec fn stacks_agree(self) -> bool {
        self.selected_stack@ == self.nav_stack@
    }

    /// The directory on screen.
    pub open spec fn current(self) -> DirNode {
        node_at(self.root, self.nav_stack@)
    }

    /// The number of rows on screen.
    pub open spec fn rows(self) -> nat {
        self.current().children@.len()
    }

    /// The state is consistent: the path leads through directories of the
    /// tree, and the selection is a row on screen (or zero when there is
    /// none).
    pub open spec fn wf(self) -> bool {
        &&& path_ok(self.root, self.nav_stack@)
        &&& dirs_along(self.root, self.nav_stack@)
        &&& self.stacks_agree()
        &&& (self.selected == 0 || self.selected < self.rows())
    }

    /// `next` differs from `self` at most in its selection.
    pub open spec fn keeps_view(self, next: App) -> bool {
        &&& next.root == self.root
        &&& next.nav_stack@ == self.nav_stack@
        &&& next.sort_mode == self.sort_mode
        &&& next.bottom_panel == self.bottom_panel
        &&& next.status == self.status
        &&& next.anim == self.anim
        &&& next.pulse == self.pulse
    }

    /// What moving the selection down one row does.
    pub open spec fn moved_down(self, next: App) -> bool {
        &&& self.keeps_view(next)
        &&& next.selected == if self.selected + 1 < self.rows() { self.selected + 1 } else { self.selected as int }
    }

    /// What moving the selection up one row does.
    pub open spec fn moved_up(self, next: App) -> bool {
        &&& self.keeps_view(next)
        &&& next.selected == if self.selected > 0 { self.selected - 1 } else { 0 }
    }

    /// What moving the selection down a page of `page` rows does: it stops
    /// at the last row.
    pub open spec fn paged_down(self, next: App, page: usize) -> bool {
        &&& self.keeps_view(next)
        &&& next.selected == if self.rows() == 0 {
            self.selected as int
        } else if self.selected + page < self.rows() {
            self.selected + page
        } else {
            self.rows() - 1
        }
    }

    /// What moving the selection up a page of `page` rows does: it stops at
    /// the first row.
    pub open spec fn paged_up(self, next: App, page: usize) -> bool {
        &&& self.keeps_view(next)
        &&& next.selected == if self.selected >= page { self.selected - page } else { 0 }
    }

    /// `next` restarted the view animation and kept everything but the
    /// tree, the path, the selection, the sort order and the panel.
    pub open spec fn restarted(self, next: App) -> bool {
        &&& next.status == self.status
        &&& next.pulse == self.pulse
        &&& next.anim.length_ms() == VIEW_ANIM_MS
    }

    /// Opening the selected row: a directory row is entered with the first
    /// row selected; otherwise nothing changes.
    pub open spec fn opened(self, next: App) -> bool {
        if self.selected < self.rows() && self.current().children@[self.selected as int].is_dir {
            &&& self.restarted(next)
            &&& next.root == self.root
            &&& next.nav_stack@ == self.nav_stack@.push(self.selected)
            &&& next.selected == 0
            &&& next.sort_mode == self.sort_mode
            &&& next.bottom_panel == self.bottom_panel
        } else {
            next == self
        }
    }

    /// Going up one level: the directory left is selected again in its
    /// parent; at the top nothing changes.
    pub open spec fn went_back(self, next: App) -> bool {
        if self.nav_stack@.len() > 0 {
            &&& self.restarted(next)
            &&& next.root == self.root
            &&& next.nav_stack@ == self.nav_stack@.drop_last()
            &&& next.selected == self.nav_stack@.last()
            &&& next.sort_mode == self.sort_mode
            &&& next.bottom_panel == self.bottom_panel
        } else {
            next == self
        }
    }

    /// Switching to the next sort order: the directory on screen is re-listed
    /// in it (stably) and its first row selected; the rest of the tree is
    /// untouched.
    pub open spec fn resorted(self, next: App) -> bool {
        &&& self.restarted(next)
        &&& next.sort_mode == next_sort(self.sort_mode)
        &&& next.nav_stack@ == self.nav_stack@
        &&& next.selected == 0
        &&& next.bottom_panel == self.bottom_panel
        &&& agree_off_path(self.root, next.root, self.nav_stack@)
        &&& same_entry(next.current(), self.current())
        &&& is_stable_sort(next.sort_mode, next.current().children@, self.current().children@)
    }

    /// Switching the lower panel.
    pub open spec fn switched_panel(self, next: App) -> bool {
        &&& self.restarted(next)
        &&& next.root == self.root
        &&& next.nav_stack@ == self.nav_stack@
        &&& next.selected == self.selected
        &&& next.sort_mode == self.sort_mode
        &&& next.bottom_panel == other_panel(self.bottom_panel)
    }

    /// A browser at the top of `root`, sorted by size, showing the map.
    pub fn new(root: DirNode) -> (app: App)
        ensures
            app.wf(),
            app.root == root,
            app.nav_stack@.len() == 0,
            app.selected == 0,
            app.sort_mode == SortMode::Size,
            app.bottom_panel == BottomPanel::Treemap,
            app.status.is_none(),
            app.anim.length_ms() == VIEW_ANIM_MS,
    {
        App {
            root,
            nav_stack: Vec::new(),
            selected_stack: Vec::new(),
            selected: 0,
            sort_mode: SortMode::Size,
            bottom_panel: BottomPanel::Treemap,
            status: None,
            anim: Animation::started(VIEW_ANIM_MS),
            pulse: Pulse::new(),
        }
    }

    fn restart_view_anim(&mut self)
        ensures
            final(self).anim.length_ms() == VIEW_ANIM_MS,
            final(self).root == old(self).root,
            final(self).nav_stack == old(self).nav_stack,
            final(self).selected_stack == old(self).selected_stack,
            final(self).selected == old(self).selected,
            final(self).sort_mode == old(self).sort_mode,
            final(self).bottom_panel == old(self).bottom_panel,
            final(self).status == old(self).status,
            final(self).pulse == old(self).pulse,
    {
        self.anim = Animation::started(VIEW_ANIM_MS);
    }

    /// The directory on screen.
    pub fn current_node(&self) -> (n: &DirNode)
        requires
            self.wf(),
        ensures
            *n == self.current(),
    {
        let mut node = &self.root;
        let mut k: usize = 0;
        while k < self.nav_stack.len()
            invariant
                k <= self.nav_stack@.len(),
                path_ok(self.root, self.nav_stack@),
                *node == node_at(self.root, self.nav_stack@.take(k as int)),
            decreases self.nav_stack@.len() - k,
        {
            let i = self.nav_stack[k];
            proof {
                lemma_path_ok_prefix(self.root, self.nav_stack@, k + 1);
                assert(self.nav_stack@.take(k + 1).drop_last() =~= self.nav_stack@.take(k as int));
            }
            node = &node.children[i];
            k = k + 1;
        }
        proof {
            assert(self.nav_stack@.take(k as int) =~= self.nav_stack@);
        }
        node
    }

    /// The names along the path from the root to the directory on screen,
    /// separated by " / ".
    pub fn breadcrumb(&self) -> (s: String)
        requires
            self.wf(),
        ensures
            s@ == crumbs(self.root, self.nav_stack@),
    {
        let mut node = &self.root;
        let mut out = node.name.clone();
        let mut k: usize = 0;
        while k < self.nav_stack.len()
            invariant
                k <= self.nav_stack@.len(),
                path_ok(self.root, self.nav_stack@),
                *node == node_at(self.root, self.nav_stack@.take(k as int)),
                out@ == crumbs(self.root, self.nav_stack@.take(k as int)),
            decreases self.nav_stack@.len() - k,
        {
            let i = self.nav_stack[k];
            proof {
                lemma_path_ok_prefix(self.root, self.nav_stack@, k + 1);
                assert(self.nav_stack@.take(k + 1).drop_last() =~= self.nav_stack@.take(k as int));
            }
            node = &node.children[i];
            out.append(" / ");
            out.append(node.name.as_str());
            k = k + 1;
        }
        proof {
            assert(self.nav_stack@.take(k as int) =~= self.nav_stack@);
        }
        out
    }

    /// Moves the selection down one row, stopping at the last.
    pub fn move_down(&mut self)
        requires
            old(self).wf(),
        ensures
            final(self).wf(),
            old(self).moved_down(*final(self)),
    {
        let len = self.current_node().children.len();
        if len > 0 && self.selected + 1 < len {
            self.selected = self.selected + 1;
        }
    }

    /// Moves the selection up one row, stopping at the first.
    pub fn move_up(&mut self)
        requires
            old(self).wf(),
        ensures
            final(self).wf(),
            old(self).moved_up(*final(self)),
    {
        if self.selected > 0 {
            self.selected = self.selected - 1;
        }
    }

    /// Moves the selection down `page` rows, stopping at the last.
    pub fn page_down(&mut self, page: usize)
        requires
            old(self).wf(),
            old(self).selected + page <= usize::MAX,
        ensures
            final(self).wf(),
            old(self).paged_down(*final(self), page),
    {
        let len = self.current_node().children.len();
        if len == 0 {
            return;
        }
        let target = self.selected + page;
        self.selected = if target < len - 1 { target } else { len - 1 };
    }

    /// Moves the selection up `page` rows, stopping at the first.
    pub fn page_up(&mut self, page: usize)
        requires
            old(self).wf(),
        ensures
            final(self).wf(),
            old(self).paged_up(*final(self), page),
    {
        self.selected = self.selected.saturating_sub(page);
    }

    /// Opens the selected row when it is a directory.
    pub fn enter(&mut self)
        requires
            old(self).wf(),
        ensures
            final(self).wf(),
            old(self).opened(*final(self)),
    {
        let node = self.current_node();
        if self.selected >= node.children.len() {
            return;
        }
        if !node.children[self.selected].is_dir {
            return;
        }
        let ghost before = self.nav_stack@;
        self.selected_stack.push(self.selected);
        self.nav_stack.push(self.selected);
        self.selected = 0;
        self.restart_view_anim();
        proof {
            let now = self.nav_stack@;
            assert(now.drop_last() =~= before);
            assert forall|k: int| 0 < k <= now.len() implies (#[trigger] node_at(self.root, now.take(k))).is_dir by {
                if k < now.len() {
                    assert(now.take(k) =~= before.take(k));
                } else {
                    assert(now.take(k) =~= now);
                }
            }
        }
    }

    /// Goes up one level, selecting the directory that was left.
    pub fn back(&mut self)
        requires
            old(self).wf(),
        ensures
            final(self).wf(),
            old(self).went_back(*final(self)),
    {
        let ghost before = self.nav_stack@;
        if self.nav_stack.len() > 0 {
            self.nav_stack.pop();
            self.selected = match self.selected_stack.pop() {
                Some(i) => i,
                None => 0,
            };
            self.restart_view_anim();
            proof {
                assert(before.drop_last() =~= self.nav_stack@);
                assert(path_ok(self.root, before.drop_last()));
                assert((before.last() as int) < node_at(self.root, before.drop_last()).children@.len());
                assert(self.selected_stack@ =~= self.nav_stack@);
                assert forall|k: int| 0 < k <= self.nav_stack@.len() implies (#[trigger] node_at(self.root, self.nav_stack@.take(k))).is_dir by {
                    assert(self.nav_stack@.take(k) =~= before.take(k));
                }
            }
        }
    }

    /// Switches to the next sort order and re-lists the directory on screen.
    pub fn toggle_sort(&mut self)
        requires
            old(self).wf(),
        ensures
            final(self).wf(),
            old(self).resorted(*final(self)),
    {
        self.sort_mode = match self.sort_mode {
            SortMode::Size => SortMode::Name,
            SortMode::Name => SortMode::Modified,
            SortMode::Modified => SortMode::Size,
        };
        let mode = self.sort_mode;
        proof {
            assert(self.nav_stack@.subrange(0, self.nav_stack@.len() as int) =~= self.nav_stack@);
        }
        self.root.sort_at(&self.nav_stack, 0, mode);
        self.selected = 0;
        self.restart_view_anim();
        proof {
            let path = self.nav_stack@;
            lemma_agree_off_path_keeps_path(old(self).root, self.root, path);
            assert forall|k: int| 0 < k <= path.len() implies (#[trigger] node_at(self.root, path.take(k))).is_dir by {
                assert(node_at(old(self).root, path.take(k)).is_dir);
                if k < path.len() {
                    lemma_agree_off_path_entries(old(self).root, self.root, path, k);
                } else {
                    assert(path.take(k) =~= path);
                }
            }
        }
    }

    /// Switches the lower panel between the map and the type breakdown.
    pub fn toggle_bottom_panel(&mut self)
        requires
            old(self).wf(),
        ensures
            final(self).wf(),
            old(self).switched_panel(*final(self)),
    {
        self.bottom_panel = match self.bottom_panel {
            BottomPanel::Treemap => BottomPanel::Types,
            BottomPanel::Types => BottomPanel::Treemap,
        };
        self.restart_view_anim();
    }
}

/// A key press, as far as the browser tells keys apart.
#[derive(Clone, Copy, PartialEq, Eq, Structural, Debug)]
pub enum Key {
    Char(char),
    Up,
    Down,
    Left,
    Right,
    PageUp,
    PageDown,
    Enter,
    Backspace,
    Tab,
    Esc,
    Other,
}

/// What the event loop does after a key press.
#[derive(Clone, Copy, PartialEq, Eq, Structural, Debug)]
pub enum Outcome {
    /// Keep running.
    Continue,
    /// Leave the browser.
    Quit,
    /// Scan the root again and start over with the new tree.
    Rescan,
}

/// The number of rows a page key moves the selection.
pub const PAGE_ROWS: usize = 10;

/// Whether a key press cancels a running scan: `q` or Esc.
pub fn cancels_scan(key: Key) -> (c: bool)
    ensures
        c == (key == Key::Char('q') || key == Key::Esc),
{
    match key {
        Key::Char(c) => c == 'q',
        Key::Esc => true,
        _ => false,
    }
}

impl App {
    /// What a key press does to the browser and what the loop does next.
    pub open spec fn key_effect(self, key: Key, next: App, outcome: Outcome) -> bool {
        if key == Key::Char('q') || key == Key::Esc {
            outcome == Outcome::Quit && next == self
        } else if key == Key::Char('r') {
            &&& outcome == Outcome::Rescan
            &&& next.status.is_some()
            &&& next.status.unwrap()@ == "rescanning..."@
            &&& next.root == self.root
            &&& next.nav_stack@ == self.nav_stack@
            &&& next.selected == self.selected
            &&& next.sort_mode == self.sort_mode
            &&& next.bottom_panel == self.bottom_panel
            &&& next.anim == self.anim
            &&& next.pulse == self.pulse
        } else {
            &&& outcome == Outcome::Continue
            &&& if key == Key::Down || key == Key::Char('j') {
                self.moved_down(next)
            } else if key == Key::Up || key == Key::Char('k') {
                self.moved_up(next)
            } else if key == Key::PageDown {
                self.paged_down(next, PAGE_ROWS)
            } else if key == Key::PageUp {
                self.paged_up(next, PAGE_ROWS)
            } else if key == Key::Enter || key == Key::Right || key == Key::Char('l') {
                self.opened(next)
            } else if key == Key::Backspace || key == Key::Left || key == Key::Char('h') {
                self.went_back(next)
            } else if key == Key::Char('s') {
                self.resorted(next)
            } else if key == Key::Char('t') || key == Key::Tab {
                self.switched_panel(next)
            } else {
                next == self
            }
        }
    }

    /// Applies a key press to the browser. On a rescan the status line says
    /// so; the caller scans and starts a new browser.
    pub fn handle_key(&mut self, key: Key) -> (outcome: Outcome)
        requires
            old(self).wf(),
            key == Key::PageDown ==> old(self).selected + PAGE_ROWS <= usize::MAX,
        ensures
            final(self).wf(),
            old(self).key_effect(key, *final(self), outcome),
    {
        match key {
            Key::Char('q') | Key::Esc => Outcome::Quit,
            Key::Down | Key::Char('j') => {
                self.move_down();
                Outcome::Continue
            },
            Key::Up | Key::Char('k') => {
                self.move_up();
                Outcome::Continue
            },
            Key::PageDown => {
                self.page_down(PAGE_ROWS);
                Outcome::Continue
            },
            Key::PageUp => {
                self.page_up(PAGE_ROWS);
                Outcome::Continue
            },
            Key::Enter | Key::Right | Key::Char('l') => {
                self.enter();
                Outcome::Continue
            },
            Key::Backspace | Key::Left | Key::Char('h') => {
                self.back();
                Outcome::Continue
            },
            Key::Char('s') => {
                self.toggle_sort();
                Outcome::Continue
            },
            Key::Char('t') | Key::Tab => {
                self.toggle_bottom_panel();
                Outcome::Continue
            },
            Key::Char('r') => {
                self.status = Some(String::from_str("rescanning..."));
                Outcome::Rescan
            },
            _ => Outcome::Continue,
        }
    }
}

// ---------------------------------------------------------------------------
// Laws of navigation
// ---------------------------------------------------------------------------

/// Opening a directory and going back returns to the same directory with the
/// same row selected, in the same tree and view.
pub proof fn lemma_back_undoes_enter(a: App, b: App, c: App)
    requires
        a.wf(),
        a.opened(b),
        b.went_back(c),
        b.nav_stack@.len() > a.nav_stack@.len(),
    ensures
        c.root == a.root,
        c.nav_stack@ == a.nav_stack@,
        c.selected == a.selected,
        c.sort_mode == a.sort_mode,
        c.bottom_panel == a.bottom_panel,
{
    if !(a.selected < a.rows() && a.current().children@[a.selected as int].is_dir) {
        assert(b == a);
    }
    assert(b.nav_stack@.drop_last() =~= a.nav_stack@);
}

/// Moving down a row and back up returns to the same row when there was a
/// row below.
pub proof fn lemma_up_undoes_down(a: App, b: App, c: App)
    requires
        a.moved_down(b),
        b.moved_up(c),
        a.selected + 1 < a.rows(),
    ensures
        c.selected == a.selected,
        c.keeps_view(a),
{
}

/// Switching the panel twice shows the panel shown before.
pub proof fn lemma_panel_switch_twice(a: App, b: App, c: App)
    requires
        a.switched_panel(b),
        b.switched_panel(c),
    ensures
        c.bottom_panel == a.bottom_panel,
        c.root == a.root,
        c.nav_stack@ == a.nav_stack@,
        c.selected == a.selected,
{
}

/// The key table: what each key does, over every state. Down and `j` move
/// the selection down a row, Up and `k` up a row, Page Down and Page Up by
/// a page; Enter, Right and `l` open the selected directory; Backspace, Left
/// and `h` go up a level; `s` changes the sort order; Tab and `t` switch the
/// panel; `r` asks for a rescan; `q` and Esc quit and change nothing; every
/// other key changes nothing.
pub proof fn lemma_key_table(a: App, key: Key, next: App, outcome: Outcome)
    requires
        a.key_effect(key, next, outcome),
    ensures
        (key == Key::Down || key == Key::Char('j')) ==> outcome == Outcome::Continue && a.moved_down(next),
        (key == Key::Up || key == Key::Char('k')) ==> outcome == Outcome::Continue && a.moved_up(next),
        key == Key::PageDown ==> outcome == Outcome::Continue && a.paged_down(next, PAGE_ROWS),
        key == Key::PageUp ==> outcome == Outcome::Continue && a.paged_up(next, PAGE_ROWS),
        (key == Key::Enter || key == Key::Right || key == Key::Char('l')) ==> outcome == Outcome::Continue
            && a.opened(next),
        (key == Key::Backspace || key == Key::Left || key == Key::Char('h')) ==> outcome == Outcome::Continue
            && a.went_back(next),
        key == Key::Char('s') ==> outcome == Outcome::Continue && a.resorted(next),
        (key == Key::Tab || key == Key::Char('t')) ==> outcome == Outcome::Continue && a.switched_panel(next),
        key == Key::Char('r') ==> outcome == Outcome::Rescan && next.root == a.root && next.nav_stack@
            == a.nav_stack@ && next.selected == a.selected,
        (key == Key::Char('q') || key == Key::Esc) ==> outcome == Outcome::Quit && next == a,
        (key == Key::Other || key == Key::Char('x') || key == Key::Char('J')) ==> outcome == Outcome::Continue
            && next == a,
{
}

/// Down and `j` are the same key to the browser, and so are Up and `k`:
/// from the same state they lead to the same selection and view.
pub proof fn lemma_arrow_and_letter_agree(a: App, b1: App, o1: Outcome, b2: App, o2: Outcome)
    requires
        (a.key_effect(Key::Down, b1, o1) && a.key_effect(Key::Char('j'), b2, o2))
            || (a.key_effect(Key::Up, b1, o1) && a.key_effect(Key::Char('k'), b2, o2)),
    ensures
        o1 == o2,
        b1.selected == b2.selected,
        b1.root == b2.root,
        b1.nav_stack@ == b2.nav_stack@,
        b1.sort_mode == b2.sort_mode,
        b1.bottom_panel == b2.bottom_panel,
{
}

/// Switching the sort order three times comes back to the first order.
pub proof fn lemma_sort_cycle(m: SortMode)
    ensures
        next_sort(next_sort(next_sort(m))) == m,
        next_sort(m) != m,
{
}

} // verus!
