use vstd::prelude::*;

use crate::input::Key;

verus! {

/// A list of titles with one selected, answering the arrow keys.
#[derive(Debug)]
pub struct Menu {
    pub menu_titles: Vec<String>,
    pub highlight_text: Option<String>,
    pub selection: usize,
    pub selected: bool,
    pub exit: bool,
}

impl Menu {
    /// Moves the selection up one title, stopping at the first.
    pub fn select_up(&mut self)
        ensures
            final(self).selection == if old(self).selection > 0 { old(self).selection - 1 } else { 0 },
            final(self).menu_titles@ == old(self).menu_titles@,
            final(self).highlight_text == old(self).highlight_text,
            final(self).selected == old(self).selected,
            final(self).exit == old(self).exit,
    {
        if self.selection > 0 {
            self.selection -= 1;
        }
    }

    /// Moves the selection down one title, stopping at the last.
    pub fn select_down(&mut self)
        requires
            old(self).menu_titles@.len() > 0,
        ensures
            final(self).selection == if old(self).selection + 1 < old(self).menu_titles@.len() {
                old(self).selection + 1
            } else {
                old(self).selection as int
            },
            final(self).menu_titles@ == old(self).menu_titles@,
            final(self).highlight_text == old(self).highlight_text,
            final(self).selected == old(self).selected,
            final(self).exit == old(self).exit,
    {
        if self.selection < self.menu_titles.len() - 1 {
            self.selection += 1;
        }
    }

    /// Handles a key: enter or right confirms the selection, up and down move
    /// it; every other key only clears the confirmation.
    pub fn handle_input(&mut self, key: Key)
        requires
            key == Key::Down ==> old(self).menu_titles@.len() > 0,
        ensures
            final(self).menu_titles@ == old(self).menu_titles@,
            final(self).highlight_text == old(self).highlight_text,
            final(self).exit == old(self).exit,
            final(self).selected == (key == Key::Char('\n') || key == Key::Right),
            final(self).selection == match key {
                Key::Up => if old(self).selection > 0 { old(self).selection - 1 } else { 0 },
                Key::Down => if old(self).selection + 1 < old(self).menu_titles@.len() {
                    old(self).selection + 1
                } else {
                    old(self).selection as int
                },
                _ => old(self).selection as int,
            },
            old(self).selection < old(self).menu_titles@.len() ==> final(self).selection < final(self).menu_titles@.len(),
    {
        self.selected = false;
        match key {
            Key::Char('\n') => {
                self.selected = true;
            },
            Key::Char(_c) => {},
            Key::Up => {
                self.select_up();
            },
            Key::Down => {
                self.select_down();
            },
            Key::Right => {
                self.selected = true;
            },
            _ => {},
        }
    }
}

/// The titles of the start menu.
pub open spec fn start_menu_titles(game_started: bool) -> Seq<Seq<char>> {
    seq![if game_started { "Resume"@ } else { "Play"@ }, "Settings"@, "Info"@, "Quit"@]
}

/// The start menu: play (or resume once a game has started), settings, info
/// and quit, with the first title selected.
pub fn build_start_menu(game_started: bool) -> (menu: Menu)
    ensures
        menu.menu_titles@.len() == 4,
        forall|i: int| 0 <= i < 4 ==> #[trigger] menu.menu_titles@[i]@ == start_menu_titles(game_started)[i],
        menu.highlight_text matches Some(h) && h@ == "-> "@,
        menu.selection == 0,
        !menu.selected,
        !menu.exit,
{
    proof {
        reveal_strlit("Resume");
        reveal_strlit("Play");
        reveal_strlit("Settings");
        reveal_strlit("Info");
        reveal_strlit("Quit");
        reveal_strlit("-> ");
    }
    let play_or_resume = if game_started { String::from_str("Resume") } else { String::from_str("Play") };
    let titles = vec![play_or_resume, String::from_str("Settings"), String::from_str("Info"), String::from_str("Quit")];
    let prompt = Some(String::from_str("-> "));
    Menu { menu_titles: titles, highlight_text: prompt, selection: 0, selected: false, exit: false }
}

} // verus!
