//! The picker's state and key handling: the typed input, the clips it
//! matches, the highlighted entry, and what a key press leads to.
use vstd::prelude::*;

use crate::db::{is_search_result, latest, Clip, ClipView, Database, DatabaseView};
use crate::layout::{layout, layout_of, lines_of, text_lines, TextItem};
use crate::property_names::push_char;

verus! {

/// How many clips the picker lists.
pub const MAX_RESULTS: usize = 100;

/// A key, as the picker tells keys apart.
#[derive(Clone, Copy, Debug, PartialEq, Eq, Structural)]
pub enum Key {
    Control,
    Shift,
    Escape,
    Up,
    Down,
    Return,
    BackSpace,
    Char(char),
    /// A key with no character.
    Other,
}

/// What the caller does after a key press.
#[derive(Clone, Copy, Debug, PartialEq, Eq, Structural)]
pub enum PickerAction {
    Nothing,
    Redraw,
    /// Hide the picker and give the focus back to the window that had it.
    Close,
    /// The highlighted clip is now the selection: hide the picker, give the
    /// focus back, claim PRIMARY, and, if `paste`, send Shift+Insert to the
    /// window that had the focus.
    Commit { paste: bool },
}

/// The picker's mathematical state.
pub struct PickerView {
    pub input: Seq<char>,
    pub searches: Seq<ClipView>,
    pub current_choice: nat,
    pub shift: bool,
    pub ctrl: bool,
}

/// `searches` is what the picker lists for `input`: the newest clips for an
/// empty input, else the search results.
pub open spec fn lists(db: DatabaseView, input: Seq<char>, searches: Seq<ClipView>) -> bool {
    if input.len() == 0 {
        searches == latest(db.ring, MAX_RESULTS as nat)
    } else {
        is_search_result(db.ring, input, MAX_RESULTS as nat, searches)
    }
}

/// Relies on `String::pop`: removes and returns the last character, if any.
#[verifier::external_body]
fn pop_char(s: &mut String) -> (r: Option<char>)
    ensures
        old(s)@.len() == 0 ==> r is None && final(s)@ == old(s)@,
        old(s)@.len() > 0 ==> r == Some(old(s)@.last()) && final(s)@ == old(s)@.drop_last(),
{
    s.pop()
}

/// The picker.
pub struct Picker {
    input: String,
    searches: Vec<Clip>,
    current_choice: usize,
    shift: bool,
    ctrl: bool,
}

impl View for Picker {
    type V = PickerView;

    closed spec fn view(&self) -> PickerView {
        PickerView {
            input: self.input@,
            searches: self.searches@.map_values(|c: Clip| c@),
            current_choice: self.current_choice as nat,
            shift: self.shift,
            ctrl: self.ctrl,
        }
    }
}

impl Picker {
    /// The picker lists at most `MAX_RESULTS` clips.
    pub open spec fn wf(&self) -> bool {
        self@.searches.len() <= MAX_RESULTS
    }

    /// A picker with an empty input, listing the newest clips.
    pub fn new(db: &Database) -> (r: Picker)
        requires
            db.wf(),
        ensures
            r@.input.len() == 0,
            lists(db@, r@.input, r@.searches),
            r@.current_choice == 0,
            !r@.shift && !r@.ctrl,
            r.wf(),
    {
        let mut p = Picker {
            input: String::new(),
            searches: Vec::new(),
            current_choice: 0,
            shift: false,
            ctrl: false,
        };
        p.research(db);
        p
    }

    /// The typed input.
    pub fn input(&self) -> (r: &String)
        ensures
            r@ == self@.input,
    {
        &self.input
    }

    /// The clips listed, in order.
    pub fn searches(&self) -> (r: &Vec<Clip>)
        ensures
            r@.map_values(|c: Clip| c@) == self@.searches,
    {
        &self.searches
    }

    /// The position of the highlighted clip.
    pub fn current_choice(&self) -> (r: usize)
        ensures
            r == self@.current_choice,
    {
        self.current_choice
    }

    /// The keysym column to read for the next key: 1 with Shift held, else
    /// 2 with Control held, else 0.
    pub fn keysym_column(&self) -> (r: u8)
        ensures
            r == (if self@.shift {
                1u8
            } else if self@.ctrl {
                2u8
            } else {
                0u8
            }),
    {
        if self.shift {
            1
        } else if self.ctrl {
            2
        } else {
            0
        }
    }

    /// Lists the clips for the current input again and highlights the first.
    pub fn research(&mut self, db: &Database)
        requires
            db.wf(),
        ensures
            final(self)@ == (PickerView {
                searches: final(self)@.searches,
                current_choice: 0,
                ..old(self)@
            }),
            lists(db@, final(self)@.input, final(self)@.searches),
            final(self).wf(),
    {
        self.current_choice = 0;
        if self.input.as_str().is_empty() {
            let clips = db.clips();
            let n = clips.len();
            let count = if n < MAX_RESULTS {
                n
            } else {
                MAX_RESULTS
            };
            let ghost ring = db@.ring;
            let mut out: Vec<Clip> = Vec::new();
            let mut k: usize = 0;
            while k < count
                invariant
                    n == clips@.len(),
                    ring == clips@.map_values(|c: Clip| c@),
                    count <= n,
                    k <= count,
                    out@.len() == k,
                    forall|m: int| 0 <= m < k ==> (#[trigger] out@[m])@ == ring[n - 1 - m],
                decreases count - k,
            {
                out.push(clips[n - 1 - k].clone());
                k = k + 1;
            }
            let ghost views = out@.map_values(|c: Clip| c@);
            assert(views =~= latest(ring, MAX_RESULTS as nat)) by {
                assert forall|m: int| 0 <= m < count implies #[trigger] views[m] == latest(
                    ring,
                    MAX_RESULTS as nat,
                )[m] by {
                    assert(out@[m]@ == ring[n - 1 - m]);
                }
            }
            self.searches = out;
        } else {
            self.searches = db.search(self.input.as_str(), MAX_RESULTS);
        }
    }

    /// What the picker draws on a canvas of `max_rows` text rows.
    pub fn redraw(&self, max_rows: usize) -> (r: Vec<TextItem>)
        requires
            self.wf(),
        ensures
            r@.map_values(|t: TextItem| t@) == layout_of(
                self@.input,
                Seq::new(self@.searches.len(), |k: int| lines_of(self@.searches[k].text)),
                self@.current_choice,
                max_rows as nat,
            ),
    {
        let n = self.searches.len();
        let mut entries: Vec<Vec<String>> = Vec::new();
        let mut k: usize = 0;
        while k < n
            invariant
                n == self@.searches.len(),
                n <= MAX_RESULTS,
                k <= n,
                entries@.len() == k,
                forall|m: int|
                    0 <= m < k ==> (#[trigger] entries@[m])@.map_values(|l: String| l@)
                        == lines_of(self@.searches[m].text),
            decreases n - k,
        {
            let lines = text_lines(self.searches[k].contents.text().as_str());
            entries.push(lines);
            k = k + 1;
        }
        assert(crate::layout::entries_view(entries@) =~= Seq::new(
            self@.searches.len(),
            |k: int| lines_of(self@.searches[k].text),
        )) by {
            assert forall|m: int| 0 <= m < n implies crate::layout::entries_view(entries@)[m]
                == lines_of(self@.searches[m].text) by {
                assert(entries@[m]@.map_values(|l: String| l@) == lines_of(self@.searches[m].text));
            }
        }
        layout(&self.input, &entries, self.current_choice, max_rows)
    }

    /// Moves the highlight one entry up, if it is not on the first.
    fn selection_up(&mut self)
        ensures
            final(self)@ == (PickerView {
                current_choice: if old(self)@.current_choice > 0 {
                    (old(self)@.current_choice - 1) as nat
                } else {
                    old(self)@.current_choice
                },
                ..old(self)@
            }),
    {
        if self.current_choice > 0 {
            self.current_choice = self.current_choice - 1;
        }
    }

    /// Moves the highlight one entry down, if it is not on the last.
    fn selection_down(&mut self)
        ensures
            final(self)@ == (PickerView {
                current_choice: if old(self)@.current_choice + 1 < old(self)@.searches.len() {
                    old(self)@.current_choice + 1
                } else {
                    old(self)@.current_choice
                },
                ..old(self)@
            }),
    {
        if self.current_choice < self.searches.len() && self.searches.len() - self.current_choice
            > 1 {
            self.current_choice = self.current_choice + 1;
        }
    }

    /// Notes that a modifier key went up.
    pub fn key_release(&mut self, key: Key)
        ensures
            final(self)@ == (PickerView {
                ctrl: if key is Control {
                    false
                } else {
                    old(self)@.ctrl
                },
                shift: if key is Shift {
                    false
                } else {
                    old(self)@.shift
                },
                ..old(self)@
            }),
    {
        match key {
            Key::Control => {
                self.ctrl = false;
            },
            Key::Shift => {
                self.shift = false;
            },
            _ => {},
        }
    }

    /// Handles a key press. A commit makes the highlighted clip the
    /// history's selection.
    pub fn key_press(&mut self, key: Key, db: &mut Database) -> (r: PickerAction)
        requires
            old(db).wf(),
            old(self).wf(),
        ensures
            final(self).wf(),
            final(db).wf(),
            final(db)@.ring == old(db)@.ring,
            final(db)@.start == old(db)@.start,
            r is Commit ==> final(db)@.selection == Some(
                old(self)@.searches[old(self)@.current_choice as int],
            ),
            !(r is Commit) ==> final(db)@ == old(db)@,
            match key {
                Key::Control => r is Nothing && final(self)@ == (PickerView {
                    ctrl: true,
                    ..old(self)@
                }),
                Key::Shift => r is Nothing && final(self)@ == (PickerView {
                    shift: true,
                    ..old(self)@
                }),
                Key::Escape => r is Close && final(self)@ == old(self)@,
                Key::Return => final(self)@ == old(self)@ && if old(self)@.current_choice
                    < old(self)@.searches.len() {
                    r == (PickerAction::Commit { paste: !old(self)@.ctrl })
                } else {
                    r is Close
                },
                Key::Up => r is Redraw && final(self)@ == (PickerView {
                    current_choice: if old(self)@.current_choice > 0 {
                        (old(self)@.current_choice - 1) as nat
                    } else {
                        old(self)@.current_choice
                    },
                    ..old(self)@
                }),
                Key::Down => r is Redraw && final(self)@ == (PickerView {
                    current_choice: if old(self)@.current_choice + 1 < old(self)@.searches.len() {
                        old(self)@.current_choice + 1
                    } else {
                        old(self)@.current_choice
                    },
                    ..old(self)@
                }),
                Key::BackSpace => r is Redraw && final(self)@.input == (if old(self)@.input.len()
                    > 0 {
                    old(self)@.input.drop_last()
                } else {
                    old(self)@.input
                }) && final(self)@.current_choice == 0 && final(self)@.shift == old(self)@.shift
                    && final(self)@.ctrl == old(self)@.ctrl && lists(
                    old(db)@,
                    final(self)@.input,
                    final(self)@.searches,
                ),
                Key::Char(c) => if old(self)@.ctrl {
                    r is Redraw && if c == 'k' || c == 'K' {
                        final(self)@ == (PickerView {
                            current_choice: if old(self)@.current_choice > 0 {
                                (old(self)@.current_choice - 1) as nat
                            } else {
                                old(self)@.current_choice
                            },
                            ..old(self)@
                        })
                    } else if c == 'j' || c == 'J' {
                        final(self)@ == (PickerView {
                            current_choice: if old(self)@.current_choice + 1
                                < old(self)@.searches.len() {
                                old(self)@.current_choice + 1
                            } else {
                                old(self)@.current_choice
                            },
                            ..old(self)@
                        })
                    } else if c == 'u' || c == 'U' {
                        final(self)@.input.len() == 0 && final(self)@.current_choice == 0
                            && final(self)@.shift == old(self)@.shift && final(self)@.ctrl
                            == old(self)@.ctrl && lists(
                            old(db)@,
                            final(self)@.input,
                            final(self)@.searches,
                        )
                    } else {
                        final(self)@ == old(self)@
                    }
                } else {
                    r is Redraw && final(self)@.input == old(self)@.input.push(c)
                        && final(self)@.current_choice == 0 && final(self)@.shift
                        == old(self)@.shift && final(self)@.ctrl == old(self)@.ctrl && lists(
                        old(db)@,
                        final(self)@.input,
                        final(self)@.searches,
                    )
                },
                Key::Other => r is Redraw && final(self)@ == old(self)@,
            },
    {
        match key {
            Key::Control => {
                self.ctrl = true;
                PickerAction::Nothing
            },
            Key::Shift => {
                self.shift = true;
                PickerAction::Nothing
            },
            Key::Escape => PickerAction::Close,
            Key::Return => {
                if self.current_choice < self.searches.len() {
                    let clip = self.searches[self.current_choice].clone();
                    db.select_clip(clip);
                    PickerAction::Commit { paste: !self.ctrl }
                } else {
                    PickerAction::Close
                }
            },
            Key::Up => {
                self.selection_up();
                PickerAction::Redraw
            },
            Key::Down => {
                self.selection_down();
                PickerAction::Redraw
            },
            Key::BackSpace => {
                pop_char(&mut self.input);
                self.research(db);
                PickerAction::Redraw
            },
            Key::Char(c) => {
                if self.ctrl {
                    if c == 'k' || c == 'K' {
                        self.selection_up();
                    } else if c == 'j' || c == 'J' {
                        self.selection_down();
                    } else if c == 'u' || c == 'U' {
                        self.input = String::new();
                        self.research(db);
                    }
                } else {
                    push_char(&mut self.input, c);
                    self.research(db);
                }
                PickerAction::Redraw
            },
            Key::Other => PickerAction::Redraw,
        }
    }
}

} // verus!
