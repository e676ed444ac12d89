use vstd::prelude::*;
use vstd::string::StringExecFns;

use crate::sheet::{resolve, with_text_at, Cell, CellView, Sheet, SheetView};

verus! {

/// A key that the sheet browser reacts to.
#[derive(Debug, Clone, Copy, PartialEq, Eq, Structural)]
pub enum Key {
    Enter,
    Escape,
    ArrowUp,
    ArrowDown,
    ArrowLeft,
    ArrowRight,
}

/// The mathematical value of the browser's state.
pub struct AppView {
    pub sheet: SheetView,
    pub selected: Seq<usize>,
    pub editing: bool,
    pub buffer: Seq<char>,
}

/// What an interactive browser of a sheet keeps: the sheet, the selected cell
/// as an index path from the root, and whether that cell's text is being
/// edited, with the edited text.
pub struct TreeSheetsApp {
    sheet: Sheet,
    selected_path: Vec<usize>,
    editing: bool,
    edit_buffer: String,
}

impl View for TreeSheetsApp {
    type V = AppView;

    closed spec fn view(&self) -> AppView {
        AppView {
            sheet: self.sheet@,
            selected: self.selected_path@,
            editing: self.editing,
            buffer: self.edit_buffer@,
        }
    }
}

/// The cell of which the selected one is a child; the root where the root is selected.
pub open spec fn parent_of(root: CellView, path: Seq<usize>) -> Option<CellView> {
    if path.len() == 0 {
        Some(root)
    } else {
        resolve(root, path.drop_last())
    }
}

/// The path one sibling further down, where there is one.
pub open spec fn path_down(root: CellView, path: Seq<usize>) -> Seq<usize> {
    if path.len() > 0 && parent_of(root, path) is Some && path.last() + 1 < parent_of(
        root,
        path,
    )->Some_0.children.len() {
        path.update(path.len() - 1, (path.last() + 1) as usize)
    } else {
        path
    }
}

/// The path one sibling further up, where there is one.
pub open spec fn path_up(path: Seq<usize>) -> Seq<usize> {
    if path.len() > 0 && path.last() > 0 {
        path.update(path.len() - 1, (path.last() - 1) as usize)
    } else {
        path
    }
}

/// The path of the first child of the selected cell, where it has one.
pub open spec fn path_into(root: CellView, path: Seq<usize>) -> Seq<usize> {
    if resolve(root, path) is Some && resolve(root, path)->Some_0.children.len() > 0 {
        path.push(0)
    } else {
        path
    }
}

/// The path of the parent of the selected cell; the root stays selected.
pub open spec fn path_out(path: Seq<usize>) -> Seq<usize> {
    if path.len() > 0 {
        path.drop_last()
    } else {
        path
    }
}

/// The state once an edit of the selected cell starts: its text is what is
/// edited; nothing changes where the selection leads nowhere.
pub open spec fn after_begin_edit(s: AppView) -> AppView {
    if resolve(s.sheet.root, s.selected) is Some {
        AppView { editing: true, buffer: resolve(s.sheet.root, s.selected)->Some_0.text, ..s }
    } else {
        s
    }
}

/// The state after one key: Enter starts editing the selected cell's text,
/// Escape drops an edit, and the arrows move the selection while no edit is
/// under way.
pub open spec fn after_key(s: AppView, key: Key) -> AppView {
    let root = s.sheet.root;
    match key {
        Key::Enter => if !s.editing {
            after_begin_edit(s)
        } else {
            s
        },
        Key::Escape => if s.editing {
            AppView { editing: false, buffer: Seq::empty(), ..s }
        } else {
            s
        },
        Key::ArrowDown => if s.editing {
            s
        } else {
            AppView { selected: path_down(root, s.selected), ..s }
        },
        Key::ArrowUp => if s.editing {
            s
        } else {
            AppView { selected: path_up(s.selected), ..s }
        },
        Key::ArrowRight => if s.editing {
            s
        } else {
            AppView { selected: path_into(root, s.selected), ..s }
        },
        Key::ArrowLeft => if s.editing {
            s
        } else {
            AppView { selected: path_out(s.selected), ..s }
        },
    }
}

impl TreeSheetsApp {
    /// A browser on the demonstration sheet, with the root selected.
    pub fn new() -> (r: Self)
        ensures
            r@.sheet == crate::sheet::sample_view(),
            r@.selected.len() == 0,
            !r@.editing,
            r@.buffer.len() == 0,
    {
        TreeSheetsApp::with_sheet(Sheet::sample())
    }

    /// A browser on the given sheet, with the root selected.
    pub fn with_sheet(sheet: Sheet) -> (r: Self)
        ensures
            r@ == (AppView { sheet: sheet@, selected: Seq::empty(), editing: false, buffer: Seq::empty() }),
    {
        let r = TreeSheetsApp { sheet, selected_path: Vec::new(), editing: false, edit_buffer: String::new() };
        assert(r@.selected =~= Seq::<usize>::empty());
        r
    }

    pub fn sheet(&self) -> (r: &Sheet)
        ensures
            r@ == self@.sheet,
    {
        &self.sheet
    }

    pub fn selected_path(&self) -> (r: &Vec<usize>)
        ensures
            r@ == self@.selected,
    {
        &self.selected_path
    }

    pub fn is_editing(&self) -> (r: bool)
        ensures
            r == self@.editing,
    {
        self.editing
    }

    pub fn edit_buffer(&self) -> (r: &String)
        ensures
            r@ == self@.buffer,
    {
        &self.edit_buffer
    }

    /// The selected cell, or `None` where the path no longer leads to one.
    pub fn get_selected_cell(&self) -> (r: Option<&Cell>)
        ensures
            match r {
                Some(c) => resolve(self@.sheet.root, self@.selected) == Some(c@),
                None => resolve(self@.sheet.root, self@.selected) is None,
            },
    {
        self.sheet.root.cell_at(self.selected_path.as_slice())
    }

    /// The parent of the selected cell; the root where the root is selected.
    pub fn get_parent_cell(&self) -> (r: Option<&Cell>)
        ensures
            match r {
                Some(c) => parent_of(self@.sheet.root, self@.selected) == Some(c@),
                None => parent_of(self@.sheet.root, self@.selected) is None,
            },
    {
        let n = self.selected_path.len();
        if n == 0 {
            return Some(&self.sheet.root);
        }
        let mut current = &self.sheet.root;
        let mut i: usize = 0;
        let ghost path = self@.selected.drop_last();
        assert(path.skip(0) =~= path);
        while i < n - 1
            invariant
                n == self.selected_path@.len(),
                n > 0,
                path == self@.selected.drop_last(),
                i <= n - 1,
                resolve(self@.sheet.root, path) == resolve(current@, path.skip(i as int)),
            decreases n - 1 - i,
        {
            let index = self.selected_path[i];
            assert(path.skip(i as int).drop_first() =~= path.skip(i + 1));
            if index < current.children.len() {
                assert(current@.children[index as int] == current.children@[index as int]@);
                current = &current.children[index];
            } else {
                return None;
            }
            i = i + 1;
        }
        assert(path.skip(i as int) =~= Seq::<usize>::empty());
        Some(current)
    }

    /// Selects the next sibling, where there is one.
    pub fn navigate_down(&mut self)
        ensures
            final(self)@ == (AppView { selected: path_down(old(self)@.sheet.root, old(self)@.selected), ..old(self)@ }),
    {
        let n = self.selected_path.len();
        if n > 0 {
            let last = self.selected_path[n - 1];
            let bound = match self.get_parent_cell() {
                Some(parent) => parent.children.len(),
                None => 0,
            };
            if bound > 0 && last < bound - 1 {
                self.selected_path.set(n - 1, last + 1);
            }
        }
    }

    /// Selects the previous sibling, where there is one.
    pub fn navigate_up(&mut self)
        ensures
            final(self)@ == (AppView { selected: path_up(old(self)@.selected), ..old(self)@ }),
    {
        let n = self.selected_path.len();
        if n > 0 {
            let last = self.selected_path[n - 1];
            if last > 0 {
                self.selected_path.set(n - 1, last - 1);
            }
        }
    }

    /// Selects the first child of the selected cell, where it has one.
    pub fn navigate_into(&mut self)
        ensures
            final(self)@ == (AppView { selected: path_into(old(self)@.sheet.root, old(self)@.selected), ..old(self)@ }),
    {
        let has_children = match self.get_selected_cell() {
            Some(c) => c.children.len() > 0,
            None => false,
        };
        if has_children {
            self.selected_path.push(0);
        }
    }

    /// Selects the parent of the selected cell; the root stays selected.
    pub fn navigate_out(&mut self)
        ensures
            final(self)@ == (AppView { selected: path_out(old(self)@.selected), ..old(self)@ }),
    {
        if self.selected_path.len() > 0 {
            self.selected_path.pop();
        }
    }

    /// Selects the cell at `path`, dropping any edit under way.
    pub fn select(&mut self, path: Vec<usize>)
        ensures
            final(self)@ == (AppView { selected: path@, editing: false, ..old(self)@ }),
    {
        self.selected_path = path;
        self.editing = false;
    }

    /// Replaces the sheet, selecting its root.
    pub fn replace_sheet(&mut self, sheet: Sheet)
        ensures
            final(self)@ == (AppView { sheet: sheet@, selected: Seq::empty(), ..old(self)@ }),
    {
        self.sheet = sheet;
        self.selected_path.clear();
        assert(self@.selected =~= Seq::<usize>::empty());
    }

    /// Reacts to one key press.
    pub fn handle_key(&mut self, key: Key)
        ensures
            final(self)@ == after_key(old(self)@, key),
    {
        match key {
            Key::Enter => {
                if !self.editing {
                    self.begin_edit();
                }
            },
            Key::Escape => {
                if self.editing {
                    self.editing = false;
                    self.edit_buffer = String::new();
                }
            },
            Key::ArrowDown => {
                if !self.editing {
                    self.navigate_down();
                }
            },
            Key::ArrowUp => {
                if !self.editing {
                    self.navigate_up();
                }
            },
            Key::ArrowRight => {
                if !self.editing {
                    self.navigate_into();
                }
            },
            Key::ArrowLeft => {
                if !self.editing {
                    self.navigate_out();
                }
            },
        }
    }

    /// Starts editing the selected cell with its current text, also when an
    /// edit is under way; nothing changes where the selection leads nowhere.
    pub fn begin_edit(&mut self)
        ensures
            final(self)@ == after_begin_edit(old(self)@),
    {
        let text = match self.get_selected_cell() {
            Some(c) => Some(c.text.clone()),
            None => None,
        };
        match text {
            Some(t) => {
                self.editing = true;
                self.edit_buffer = t;
            },
            None => {},
        }
    }

    /// Replaces the text being edited.
    pub fn set_edit_buffer(&mut self, text: String)
        ensures
            final(self)@ == (AppView { buffer: text@, ..old(self)@ }),
    {
        self.edit_buffer = text;
    }

    /// Writes the edited text into the selected cell, where the selection still
    /// leads to one, and ends the edit.
    pub fn commit_edit(&mut self)
        ensures
            final(self)@ == (AppView {
                sheet: SheetView {
                    root: with_text_at(old(self)@.sheet.root, old(self)@.selected, old(self)@.buffer),
                    ..old(self)@.sheet
                },
                editing: false,
                buffer: Seq::empty(),
                ..old(self)@
            }),
    {
        let text = self.edit_buffer.clone();
        self.edit_buffer = String::new();
        assert(self.selected_path@.skip(0) =~= self.selected_path@);
        let _ = self.sheet.root.set_text_at(self.selected_path.as_slice(), 0, text);
        self.editing = false;
    }

    /// Ends the edit without changing the sheet.
    pub fn cancel_edit(&mut self)
        ensures
            final(self)@ == (AppView { editing: false, buffer: Seq::empty(), ..old(self)@ }),
    {
        self.editing = false;
        self.edit_buffer = String::new();
    }
}

} // verus!
