use vstd::prelude::*;

verus! {

/// A named choice that stands for a value.
#[derive(Clone, Debug)]
pub struct MappedOption<T> {
    pub mapped: T,
    pub name: String,
    pub size: i8,
}

/// A list of choices with a highlighted one.
#[derive(Clone, Debug)]
pub struct OptionListSelection<T> {
    pub options: Vec<MappedOption<T>>,
    pub index: u16,
}

impl<T> OptionListSelection<T> {
    /// An empty list, highlighting the first place.
    pub fn new() -> (s: OptionListSelection<T>)
        ensures
            s.options@.len() == 0,
            s.index == 0,
    {
        OptionListSelection { options: Vec::new(), index: 0 }
    }

    /// The highlighted choice, if the highlight is on one.
    pub fn get_chosen(&self) -> (r: Option<&MappedOption<T>>)
        ensures
            match r {
                Some(o) => self.index < self.options@.len() && *o == self.options@[self.index as int],
                None => self.index >= self.options@.len(),
            },
    {
        if (self.index as usize) < self.options.len() {
            Some(&self.options[self.index as usize])
        } else {
            None
        }
    }

    /// Moves the highlight up one place, stopping at the top.
    pub fn move_up(&mut self)
        ensures
            final(self).options == old(self).options,
            final(self).index == if old(self).index > 0 { old(self).index - 1 } else { 0 },
    {
        if self.index > 0 {
            self.index -= 1;
        }
    }

    /// Moves the highlight down one place while it is above the number of
    /// choices (counted modulo 2^16): it can rest one place past the last choice.
    pub fn move_down(&mut self)
        ensures
            final(self).options == old(self).options,
            final(self).index == if (old(self).index as int) < old(self).options@.len() % 65536 {
                old(self).index + 1
            } else {
                old(self).index as int
            },
    {
        let count: u16 = (self.options.len() % 65536) as u16;
        if self.index < count {
            self.index += 1;
        }
    }
}

} // verus!
