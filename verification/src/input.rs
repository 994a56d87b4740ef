use vstd::prelude::*;

use crate::position::Side;

verus! {

/// A key pressed by the player, as the terminal reports it.
#[derive(Clone, Copy, Debug, PartialEq, Eq, Structural, Hash)]
pub enum Key {
    Backspace,
    Left,
    ShiftLeft,
    AltLeft,
    CtrlLeft,
    Right,
    ShiftRight,
    AltRight,
    CtrlRight,
    Up,
    ShiftUp,
    AltUp,
    CtrlUp,
    Down,
    ShiftDown,
    AltDown,
    CtrlDown,
    Home,
    CtrlHome,
    End,
    CtrlEnd,
    PageUp,
    PageDown,
    BackTab,
    Delete,
    Insert,
    /// A function key.
    F(u8),
    /// A plain character.
    Char(char),
    /// A character with Alt held.
    Alt(char),
    /// A character with Ctrl held.
    Ctrl(char),
    Null,
    Esc,
}

/// The key that confirms a choice.
pub fn enter_key() -> (k: Key)
    ensures
        k == Key::Char('\n'),
{
    Key::Char('\n')
}

/// The first binding of `key` in the list, if any.
pub open spec fn lookup<T>(bindings: Seq<(Key, T)>, key: Key) -> Option<T>
    decreases bindings.len(),
{
    if bindings.len() == 0 {
        None
    } else if bindings[0].0 == key {
        Some(bindings[0].1)
    } else {
        lookup(bindings.drop_first(), key)
    }
}

/// The value bound to `key`, searching the bindings in order.
fn find_binding<T>(bindings: &Vec<(Key, T)>, key: Key) -> (r: Option<&T>)
    ensures
        match r {
            Some(v) => lookup(bindings@, key) == Some(*v),
            None => lookup(bindings@, key).is_none(),
        },
{
    let mut i: usize = 0;
    assert(bindings@.skip(0) =~= bindings@);
    while i < bindings.len()
        invariant
            i <= bindings@.len(),
            lookup(bindings@, key) == lookup(bindings@.skip(i as int), key),
        decreases bindings@.len() - i,
    {
        assert(bindings@.skip(i as int)[0] == bindings@[i as int]);
        assert(bindings@.skip(i as int).drop_first() =~= bindings@.skip(i + 1));
        if bindings[i].0 == key {
            return Some(&bindings[i].1);
        }
        i += 1;
    }
    None
}

/// The actions the player can take on the map.
#[derive(Clone, Copy, Debug, PartialEq, Eq, Structural)]
pub enum PlayerAction {
    /// Shows the inventory and other character details.
    ShowCharacterInfo,
    /// Starts a fight, for developing the combat view.
    DevBeginCombat,
    LookAround,
    OpenNearby,
    MovePlayer(Side),
    /// Opens the pause menu, closes a container view, and so on.
    Escape,
}

#[derive(Clone, Copy, Debug, PartialEq, Eq, Structural)]
pub enum LookInput {
    LookUp,
    LookDown,
    LookLeft,
    LookRight,
    LookCurrent,
}

#[derive(Clone, Copy, Debug, PartialEq, Eq, Structural)]
pub enum OpenInput {
    OpenUp,
    OpenDown,
    OpenLeft,
    OpenRight,
}

/// Keys bound to the map actions.
#[derive(Clone, Debug)]
pub struct ActionKeyBindings {
    pub bindings: Vec<(Key, PlayerAction)>,
}

/// Keys bound to the directions of looking.
#[derive(Clone, Debug)]
pub struct LookKeyBindings {
    bindings: Vec<(Key, LookInput)>,
}

/// Keys bound to the directions of opening.
#[derive(Clone, Debug)]
pub struct OpenKeyBindings {
    bindings: Vec<(Key, OpenInput)>,
}

/// The default map action of each key.
pub open spec fn default_action(key: Key) -> Option<PlayerAction> {
    match key {
        Key::Esc => Some(PlayerAction::Escape),
        Key::Char('c') => Some(PlayerAction::DevBeginCombat),
        Key::Char('i') => Some(PlayerAction::ShowCharacterInfo),
        Key::Char('k') => Some(PlayerAction::LookAround),
        Key::Char('o') => Some(PlayerAction::OpenNearby),
        Key::Up | Key::Char('w') => Some(PlayerAction::MovePlayer(Side::TOP)),
        Key::Down | Key::Char('s') => Some(PlayerAction::MovePlayer(Side::BOTTOM)),
        Key::Left | Key::Char('a') => Some(PlayerAction::MovePlayer(Side::LEFT)),
        Key::Right | Key::Char('d') => Some(PlayerAction::MovePlayer(Side::RIGHT)),
        _ => None,
    }
}

/// The default look direction of each key (arrows, and `w` `a` `s` `d` bound
/// to up, down, left and right in that order).
pub open spec fn default_look(key: Key) -> Option<LookInput> {
    match key {
        Key::Up | Key::Char('w') => Some(LookInput::LookUp),
        Key::Down | Key::Char('a') => Some(LookInput::LookDown),
        Key::Left | Key::Char('s') => Some(LookInput::LookLeft),
        Key::Right | Key::Char('d') => Some(LookInput::LookRight),
        _ => None,
    }
}

/// The default open direction of each key (arrows, and `w` `a` `s` `d` bound
/// to up, down, left and right in that order).
pub open spec fn default_open(key: Key) -> Option<OpenInput> {
    match key {
        Key::Up | Key::Char('w') => Some(OpenInput::OpenUp),
        Key::Down | Key::Char('a') => Some(OpenInput::OpenDown),
        Key::Left | Key::Char('s') => Some(OpenInput::OpenLeft),
        Key::Right | Key::Char('d') => Some(OpenInput::OpenRight),
        _ => None,
    }
}

pub fn build_default_action_keybindings() -> (b: ActionKeyBindings)
    ensures
        forall|key: Key| #[trigger] lookup(b.bindings@, key) == default_action(key),
        forall|key: Key| #[trigger] key_side(key) matches Some(side)
            ==> lookup(b.bindings@, key) == Some(PlayerAction::MovePlayer(side)),
{
    proof {
        lemma_movement_keys_move_towards_their_side();
    }
    let bindings = vec![
        (Key::Esc, PlayerAction::Escape),
        (Key::Char('c'), PlayerAction::DevBeginCombat),
        (Key::Char('i'), PlayerAction::ShowCharacterInfo),
        (Key::Char('k'), PlayerAction::LookAround),
        (Key::Char('o'), PlayerAction::OpenNearby),
        (Key::Up, PlayerAction::MovePlayer(Side::TOP)),
        (Key::Down, PlayerAction::MovePlayer(Side::BOTTOM)),
        (Key::Left, PlayerAction::MovePlayer(Side::LEFT)),
        (Key::Right, PlayerAction::MovePlayer(Side::RIGHT)),
        (Key::Char('w'), PlayerAction::MovePlayer(Side::TOP)),
        (Key::Char('s'), PlayerAction::MovePlayer(Side::BOTTOM)),
        (Key::Char('a'), PlayerAction::MovePlayer(Side::LEFT)),
        (Key::Char('d'), PlayerAction::MovePlayer(Side::RIGHT)),
    ];
    assert forall|key: Key| #[trigger] lookup(bindings@, key) == default_action(key) by {
        reveal_with_fuel(lookup, 14);
    }
    ActionKeyBindings { bindings }
}

impl ActionKeyBindings {
    pub fn get_input(&self, key: Key) -> (r: Option<&PlayerAction>)
        ensures
            match r {
                Some(v) => lookup(self.bindings@, key) == Some(*v),
                None => lookup(self.bindings@, key).is_none(),
            },
    {
        find_binding(&self.bindings, key)
    }
}

pub fn build_default_look_keybindings() -> (b: LookKeyBindings)
    ensures
        forall|key: Key| #[trigger] b.input_for(key) == default_look(key),
{
    let bindings = vec![
        (Key::Up, LookInput::LookUp),
        (Key::Char('w'), LookInput::LookUp),
        (Key::Down, LookInput::LookDown),
        (Key::Char('a'), LookInput::LookDown),
        (Key::Left, LookInput::LookLeft),
        (Key::Char('s'), LookInput::LookLeft),
        (Key::Right, LookInput::LookRight),
        (Key::Char('d'), LookInput::LookRight),
    ];
    assert forall|key: Key| #[trigger] lookup(bindings@, key) == default_look(key) by {
        reveal_with_fuel(lookup, 9);
    }
    LookKeyBindings { bindings }
}

impl LookKeyBindings {
    /// The look direction bound to a key.
    pub closed spec fn input_for(&self, key: Key) -> Option<LookInput> {
        lookup(self.bindings@, key)
    }

    pub fn get_input(&self, key: Key) -> (r: Option<&LookInput>)
        ensures
            match r {
                Some(v) => self.input_for(key) == Some(*v),
                None => self.input_for(key).is_none(),
            },
    {
        find_binding(&self.bindings, key)
    }
}

pub fn build_default_open_keybindings() -> (b: OpenKeyBindings)
    ensures
        forall|key: Key| #[trigger] b.input_for(key) == default_open(key),
{
    let bindings = vec![
        (Key::Up, OpenInput::OpenUp),
        (Key::Char('w'), OpenInput::OpenUp),
        (Key::Down, OpenInput::OpenDown),
        (Key::Char('a'), OpenInput::OpenDown),
        (Key::Left, OpenInput::OpenLeft),
        (Key::Char('s'), OpenInput::OpenLeft),
        (Key::Right, OpenInput::OpenRight),
        (Key::Char('d'), OpenInput::OpenRight),
    ];
    assert forall|key: Key| #[trigger] lookup(bindings@, key) == default_open(key) by {
        reveal_with_fuel(lookup, 9);
    }
    OpenKeyBindings { bindings }
}

impl OpenKeyBindings {
    /// The open direction bound to a key.
    pub closed spec fn input_for(&self, key: Key) -> Option<OpenInput> {
        lookup(self.bindings@, key)
    }

    pub fn get_input(&self, key: Key) -> (r: Option<&OpenInput>)
        ensures
            match r {
                Some(v) => self.input_for(key) == Some(*v),
                None => self.input_for(key).is_none(),
            },
    {
        find_binding(&self.bindings, key)
    }
}

/// The side a look direction faces; looking at the current place has no side.
pub open spec fn look_side(input: LookInput) -> Option<Side> {
    match input {
        LookInput::LookUp => Some(Side::TOP),
        LookInput::LookDown => Some(Side::BOTTOM),
        LookInput::LookLeft => Some(Side::LEFT),
        LookInput::LookRight => Some(Side::RIGHT),
        LookInput::LookCurrent => None,
    }
}

/// The side an open direction faces.
pub open spec fn open_side(input: OpenInput) -> Side {
    match input {
        OpenInput::OpenUp => Side::TOP,
        OpenInput::OpenDown => Side::BOTTOM,
        OpenInput::OpenLeft => Side::LEFT,
        OpenInput::OpenRight => Side::RIGHT,
    }
}

/// The side a movement key points to: the arrow keys, or `w`, `s`, `a`, `d`.
pub open spec fn key_side(key: Key) -> Option<Side> {
    match key {
        Key::Up | Key::Char('w') => Some(Side::TOP),
        Key::Down | Key::Char('s') => Some(Side::BOTTOM),
        Key::Left | Key::Char('a') => Some(Side::LEFT),
        Key::Right | Key::Char('d') => Some(Side::RIGHT),
        _ => None,
    }
}

/// The default bindings move the player towards the side each movement key
/// points to, and only movement keys move the player: every key that
/// `key_to_side` reads as a side moves the player to that side, and every key
/// bound to a move is such a key. The arrow keys move the player the way they
/// make the player look.
pub proof fn lemma_movement_keys_move_towards_their_side()
    ensures
        forall|key: Key| #[trigger] key_side(key) matches Some(side)
            ==> default_action(key) == Some(PlayerAction::MovePlayer(side)),
        forall|key: Key| #[trigger] default_action(key) matches Some(PlayerAction::MovePlayer(side))
            ==> key_side(key) == Some(side),
        forall|key: Key| (key == Key::Up || key == Key::Down || key == Key::Left || key == Key::Right) ==> {
            &&& default_look(key) is Some
            &&& look_side(default_look(key).unwrap()) is Some
            &&& #[trigger] default_action(key) == Some(PlayerAction::MovePlayer(look_side(default_look(key).unwrap()).unwrap()))
        },
{
}

pub fn key_to_side(key: Key) -> (side: Option<Side>)
    ensures
        side == key_side(key),
{
    match key {
        Key::Up | Key::Char('w') => Some(Side::TOP),
        Key::Down | Key::Char('s') => Some(Side::BOTTOM),
        Key::Left | Key::Char('a') => Some(Side::LEFT),
        Key::Right | Key::Char('d') => Some(Side::RIGHT),
        _ => None,
    }
}

pub fn map_look_input_to_side(look_input: Option<&LookInput>) -> (side: Option<Side>)
    ensures
        side == match look_input {
            Some(input) => look_side(*input),
            None => None,
        },
{
    if let Some(input) = look_input {
        match input {
            LookInput::LookUp => Some(Side::TOP),
            LookInput::LookDown => Some(Side::BOTTOM),
            LookInput::LookLeft => Some(Side::LEFT),
            LookInput::LookRight => Some(Side::RIGHT),
            _ => None,
        }
    } else {
        None
    }
}

pub fn map_open_input_to_side(open_input: Option<OpenInput>) -> (side: Option<Side>)
    ensures
        side == match open_input {
            Some(input) => Some(open_side(input)),
            None => None,
        },
{
    if let Some(input) = open_input {
        match input {
            OpenInput::OpenUp => Some(Side::TOP),
            OpenInput::OpenDown => Some(Side::BOTTOM),
            OpenInput::OpenLeft => Some(Side::LEFT),
            OpenInput::OpenRight => Some(Side::RIGHT),
        }
    } else {
        None
    }
}

} // verus!
