//! The viewer application: the view on screen, the views it was opened
//! from, a count typed before a command, and whether to quit or show help.
use vstd::prelude::*;
use crate::r_types::{is_scalar_vector, is_viewable, viewable, RTraits};
use crate::viewer::Viewer;

verus! {

pub struct App<D> {
    pub view: Viewer<D>,
    pub stack: Vec<Viewer<D>>,
    pub typed_num: Option<usize>,
    pub should_quit: bool,
    pub show_help: bool,
}

impl<D> App<D> {
    /// An application showing `view`, with nothing typed and no help shown.
    pub fn new(view: Viewer<D>) -> (r: Self)
        ensures
            r.view == view,
            r.stack@.len() == 0,
            r.typed_num is None,
            !r.should_quit,
            !r.show_help,
    {
        App { view, stack: Vec::new(), typed_num: None, should_quit: false, show_help: false }
    }

    /// Asks the application to stop.
    pub fn quit(&mut self)
        ensures
            *final(self) == (App { should_quit: true, ..*old(self) }),
    {
        self.should_quit = true;
    }

    /// The count typed so far, if any.
    pub fn get_current_num(&self) -> (r: Option<usize>)
        ensures
            r == self.typed_num,
    {
        self.typed_num
    }

    /// Shows or hides the help screen.
    pub fn toggle_help(&mut self)
        ensures
            *final(self) == (App { show_help: !old(self).show_help, ..*old(self) }),
    {
        self.show_help = !self.show_help;
    }

    /// Whether the selected cell, an object with traits `cell`, may be opened
    /// in a view of its own while the current view shows an object with
    /// traits `current`: the cell must be viewable, and the value of a
    /// single atomic value (an atomic vector of length one) is not opened
    /// again.
    pub fn can_open(&self, cell: &RTraits, current: &RTraits) -> (r: bool)
        ensures
            r == (self.view.ncols() > 0 && self.view.schema.nrow > 0 && viewable(*cell) && !(current.is_vector_atomic
                && current.len == 1)),
    {
        self.view.selected_position().is_some() && is_viewable(cell) && !is_scalar_vector(current)
    }

    /// Opens `new_viewer` on top of the current view, which is kept to come back to.
    pub fn push_viewer(&mut self, new_viewer: Viewer<D>)
        ensures
            final(self).view == new_viewer,
            final(self).stack@ == old(self).stack@.push(old(self).view),
            final(self).typed_num == old(self).typed_num,
            final(self).should_quit == old(self).should_quit,
            final(self).show_help == old(self).show_help,
    {
        let mut old_viewer = new_viewer;
        std::mem::swap(&mut self.view, &mut old_viewer);
        self.stack.push(old_viewer);
    }

    /// Goes back to the view the current one was opened from, if any.
    pub fn pop_viewer(&mut self)
        ensures
            old(self).stack@.len() == 0 ==> *final(self) == *old(self),
            old(self).stack@.len() > 0 ==> {
                &&& final(self).view == old(self).stack@.last()
                &&& final(self).stack@ == old(self).stack@.drop_last()
                &&& final(self).typed_num == old(self).typed_num
                &&& final(self).should_quit == old(self).should_quit
                &&& final(self).show_help == old(self).show_help
            },
    {
        if self.stack.len() == 0 {
            return;
        }
        if let Some(viewer) = self.stack.pop() {
            self.view = viewer;
        }
    }
}

/// Going back undoes opening a view: after opening `new_viewer` and going
/// back, the view on screen and the views kept are those from before.
pub proof fn lemma_pop_undoes_push<D>(
    before: App<D>,
    pushed: App<D>,
    popped: App<D>,
    new_viewer: Viewer<D>,
)
    requires
        pushed.view == new_viewer,
        pushed.stack@ == before.stack@.push(before.view),
        pushed.typed_num == before.typed_num,
        pushed.should_quit == before.should_quit,
        pushed.show_help == before.show_help,
        popped.view == pushed.stack@.last(),
        popped.stack@ == pushed.stack@.drop_last(),
        popped.typed_num == pushed.typed_num,
        popped.should_quit == pushed.should_quit,
        popped.show_help == pushed.show_help,
    ensures
        popped.view == before.view,
        popped.stack@ == before.stack@,
        popped.typed_num == before.typed_num,
        popped.should_quit == before.should_quit,
        popped.show_help == before.show_help,
{
    assert(pushed.stack@.drop_last() =~= before.stack@);
}

} // verus!
