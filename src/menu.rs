//! The menu's state machine: the typed pattern, the ranked matches and the
//! highlighted row, driven one key at a time until it resolves.
use vstd::prelude::*;

use crate::fuzzy::{is_ranking, rank, ScoredMatch};

verus! {

/// Relies on `String`'s `FromIterator<&char>`: the string holds the given
/// characters in order.
#[verifier::external_body]
fn string_from_chars(chars: &Vec<char>) -> (r: String)
    ensures
        r@ == chars@,
{
    chars.iter().collect()
}

/// A key press, as far as the menu tells keys apart.
#[derive(Clone, Copy, Debug, PartialEq, Eq)]
pub enum Key {
    /// Accept the highlighted row (Enter).
    Confirm,
    /// Leave the menu (Escape).
    Cancel,
    /// Remove the last character of the pattern (Backspace).
    Erase,
    /// Add a character to the end of the pattern.
    Append(char),
    /// Highlight the row above.
    Up,
    /// Highlight the row below.
    Down,
    /// Any other key; it is ignored.
    Other,
}

/// How a menu ended.
#[derive(Clone, Debug, PartialEq, Eq)]
pub enum MenuResult {
    /// A candidate was chosen: its position in the input and its text.
    Selected(usize, String),
    /// Nothing was highlighted; the typed pattern stands for itself.
    FreeText(String),
    /// Nothing was highlighted and nothing was typed.
    NoSelection,
}

/// The abstract state of a menu.
pub ghost struct MenuView {
    pub candidates: Seq<String>,
    pub pattern: Seq<char>,
    pub selected: nat,
    pub matches: Seq<ScoredMatch>,
    pub max_visible_lines: nat,
}

/// The outcome of leaving without a highlighted row: the typed pattern, or
/// nothing when none was typed.
pub open spec fn resolves_unselected(out: Option<MenuResult>, pattern: Seq<char>) -> bool {
    if pattern.len() == 0 {
        out == Some(MenuResult::NoSelection)
    } else {
        out matches Some(MenuResult::FreeText(s)) && s@ == pattern
    }
}

/// `post` holds `pattern` with the matches ranked afresh from all candidates
/// and the first row highlighted; nothing else of `pre` changed.
pub open spec fn edited(pre: MenuView, post: MenuView, pattern: Seq<char>) -> bool {
    &&& post.candidates == pre.candidates
    &&& post.max_visible_lines == pre.max_visible_lines
    &&& post.pattern == pattern
    &&& post.selected == 0
    &&& is_ranking(post.matches, pre.candidates, pattern)
}

/// One key press takes the menu from `pre` to `post`, and ends it with `out`
/// when `out` is `Some`.
pub open spec fn steps_to(pre: MenuView, key: Key, post: MenuView, out: Option<MenuResult>) -> bool {
    match key {
        Key::Confirm => post == pre && if pre.selected < pre.matches.len() {
            out == Some(
                MenuResult::Selected(
                    pre.matches[pre.selected as int].original_index,
                    pre.matches[pre.selected as int].text,
                ),
            )
        } else {
            resolves_unselected(out, pre.pattern)
        },
        Key::Cancel => post == pre && resolves_unselected(out, pre.pattern),
        Key::Erase => out is None && edited(
            pre,
            post,
            if pre.pattern.len() == 0 {
                pre.pattern
            } else {
                pre.pattern.drop_last()
            },
        ),
        Key::Append(c) => out is None && edited(pre, post, pre.pattern.push(c)),
        Key::Up => out is None && post == (MenuView {
            selected: if pre.selected > 0 {
                (pre.selected - 1) as nat
            } else {
                0
            },
            ..pre
        }),
        Key::Down => out is None && post == (MenuView {
            selected: if pre.selected + 1 < pre.matches.len() {
                pre.selected + 1
            } else {
                pre.selected
            },
            ..pre
        }),
        Key::Other => out is None && post == pre,
    }
}

/// Every transition keeps the highlighted row within
/// `0 <= selected < max(1, matches.len())`.
pub proof fn lemma_selection_in_range(pre: MenuView, key: Key, post: MenuView, out: Option<MenuResult>)
    requires
        menu_wf(pre),
        steps_to(pre, key, post, out),
    ensures
        post.selected < (if post.matches.len() > 0 { post.matches.len() } else { 1 }),
{
}

/// Moving up from the first row, or down from the last, changes nothing.
pub proof fn lemma_moves_stop_at_edges(pre: MenuView, key: Key, post: MenuView, out: Option<MenuResult>)
    requires
        steps_to(pre, key, post, out),
    ensures
        key == Key::Up && pre.selected == 0 ==> post == pre && out is None,
        key == Key::Down && pre.matches.len() > 0 && pre.selected == pre.matches.len() - 1 ==> post == pre && out is None,
{
}

/// Typing or erasing a character highlights the first row and ranks the
/// whole candidate list afresh against the new pattern, whatever the
/// previous matches were.
pub proof fn lemma_edits_rerank_all(pre: MenuView, key: Key, post: MenuView, out: Option<MenuResult>)
    requires
        steps_to(pre, key, post, out),
        key is Erase || key is Append,
    ensures
        out is None,
        post.selected == 0,
        post.candidates == pre.candidates,
        is_ranking(post.matches, pre.candidates, post.pattern),
{
}

/// An interactive menu over a fixed list of candidates.
pub struct Menu {
    candidates: Vec<String>,
    pattern: Vec<char>,
    selected: usize,
    matches: Vec<ScoredMatch>,
    max_visible_lines: usize,
}

impl View for Menu {
    type V = MenuView;

    closed spec fn view(&self) -> MenuView {
        MenuView {
            candidates: self.candidates@,
            pattern: self.pattern@,
            selected: self.selected as nat,
            matches: self.matches@,
            max_visible_lines: self.max_visible_lines as nat,
        }
    }
}

/// The highlighted row is a row of the matches, or the first row when
/// there are none, and the matches rank the candidates by the pattern.
pub open spec fn menu_wf(v: MenuView) -> bool {
    &&& v.selected < v.matches.len() || v.selected == 0
    &&& is_ranking(v.matches, v.candidates, v.pattern)
    &&& v.max_visible_lines <= v.candidates.len()
}

impl Menu {
    /// A menu over `candidates` with nothing typed, every candidate listed in
    /// input order, the first row highlighted, and at most `max_lines` rows
    /// shown at a time.
    pub fn new(candidates: Vec<String>, max_lines: usize) -> (m: Menu)
        ensures
            menu_wf(m@),
            m@.candidates == candidates@,
            m@.pattern.len() == 0,
            m@.selected == 0,
            m@.matches.len() == candidates.len(),
            forall|k: int| 0 <= k < m@.matches.len() ==> (#[trigger] m@.matches[k]).original_index == k,
            m@.max_visible_lines == if max_lines < candidates.len() { max_lines as nat } else { candidates.len() as nat },
    {
        let pattern: Vec<char> = Vec::new();
        let p = string_from_chars(&pattern);
        let matches = rank(&candidates, p.as_str());
        let max_visible_lines: usize = if max_lines < candidates.len() { max_lines } else { candidates.len() };
        Menu { candidates, pattern, selected: 0, matches, max_visible_lines }
    }

    /// The candidates, as given.
    pub fn candidates(&self) -> (r: &Vec<String>)
        ensures
            r@ == self@.candidates,
    {
        &self.candidates
    }

    /// The typed pattern.
    pub fn pattern(&self) -> (r: String)
        ensures
            r@ == self@.pattern,
    {
        string_from_chars(&self.pattern)
    }

    /// The highlighted row.
    pub fn selected_index(&self) -> (r: usize)
        ensures
            r == self@.selected,
    {
        self.selected
    }

    /// The ranked matches of the pattern.
    pub fn matches(&self) -> (r: &Vec<ScoredMatch>)
        ensures
            r@ == self@.matches,
    {
        &self.matches
    }

    /// How many rows are shown at a time.
    pub fn max_visible_lines(&self) -> (r: usize)
        ensures
            r == self@.max_visible_lines,
    {
        self.max_visible_lines
    }

    fn rerank(&mut self)
        requires
            old(self).max_visible_lines <= old(self).candidates.len(),
        ensures
            final(self)@ == (MenuView { selected: 0, matches: final(self)@.matches, ..old(self)@ }),
            is_ranking(final(self)@.matches, old(self)@.candidates, old(self)@.pattern),
    {
        let p = string_from_chars(&self.pattern);
        self.matches = rank(&self.candidates, p.as_str());
        self.selected = 0;
    }

    fn unselected_result(&self) -> (out: MenuResult)
        ensures
            resolves_unselected(Some(out), self@.pattern),
    {
        if self.pattern.len() == 0 {
            MenuResult::NoSelection
        } else {
            MenuResult::FreeText(string_from_chars(&self.pattern))
        }
    }

    /// Applies one key press. Returns how the menu ended when the key ends
    /// it, `None` when the menu goes on.
    pub fn handle_key(&mut self, key: Key) -> (out: Option<MenuResult>)
        requires
            menu_wf(old(self)@),
        ensures
            menu_wf(final(self)@),
            steps_to(old(self)@, key, final(self)@, out),
    {
        match key {
            Key::Confirm => {
                if self.selected < self.matches.len() {
                    let m = &self.matches[self.selected];
                    Some(MenuResult::Selected(m.original_index, m.text.clone()))
                } else {
                    Some(self.unselected_result())
                }
            },
            Key::Cancel => Some(self.unselected_result()),
            Key::Erase => {
                self.pattern.pop();
                self.rerank();
                None
            },
            Key::Append(c) => {
                self.pattern.push(c);
                self.rerank();
                None
            },
            Key::Up => {
                if self.selected > 0 {
                    self.selected = self.selected - 1;
                }
                None
            },
            Key::Down => {
                if self.matches.len() > 0 && self.selected < self.matches.len() - 1 {
                    self.selected = self.selected + 1;
                }
                None
            },
            Key::Other => None,
        }
    }
}

} // verus!
