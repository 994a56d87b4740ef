use vstd::prelude::*;

verus! {

#[derive(Clone, Copy, Debug, PartialEq, Eq, Structural)]
pub enum Race {
    Human,
    Goblin,
}

#[derive(Clone, Copy, Debug, PartialEq, Eq, Structural)]
pub enum Class {
    NoClass,
    Warrior,
}

/// The display name of a class.
pub open spec fn class_name(c: Class) -> Seq<char> {
    match c {
        Class::NoClass => "None"@,
        Class::Warrior => "Warrior"@,
    }
}

/// The class a name stands for.
pub open spec fn class_for_name(name: Seq<char>) -> Option<Class> {
    if name == "None"@ {
        Some(Class::NoClass)
    } else if name == "Warrior"@ {
        Some(Class::Warrior)
    } else {
        None
    }
}

impl Class {
    pub fn name(&self) -> (s: String)
        ensures
            s@ == class_name(*self),
    {
        proof {
            reveal_strlit("None");
            reveal_strlit("Warrior");
        }
        match self {
            Class::NoClass => String::from_str("None"),
            Class::Warrior => String::from_str("Warrior"),
        }
    }
}

/// The class whose name is given, if any.
pub fn determine_class(name: String) -> (c: Option<Class>)
    ensures
        c == class_for_name(name@),
{
    if name == String::from_str("None") {
        Some(Class::NoClass)
    } else if name == String::from_str("Warrior") {
        Some(Class::Warrior)
    } else {
        None
    }
}

/// Reading back the name of a class gives the class.
pub proof fn lemma_determine_class_inverts_name(c: Class)
    ensures
        class_for_name(class_name(c)) == Some(c),
{
    reveal_strlit("None");
    reveal_strlit("Warrior");
    assert("None"@ != "Warrior"@) by {
        assert("None"@[0] != "Warrior"@[0]);
    }
}

/// The kinds of character a pattern builds.
#[derive(Clone, Copy, Debug, PartialEq, Eq, Structural)]
pub enum CharacterType {
    /// The player's character before any specialisation.
    NewPlayer,
    GoblinWarrior,
}

/// Whether a fight is under way.
#[derive(Clone, Copy, Debug, Default)]
pub struct Battle {
    pub in_progress: bool,
}

impl Battle {
    pub fn begin(&mut self)
        ensures
            final(self).in_progress,
    {
        self.in_progress = true;
    }

    pub fn end(&mut self)
        ensures
            !final(self).in_progress,
    {
        self.in_progress = false;
    }
}

} // verus!
