use vstd::prelude::*;

verus! {

/// The kinds of map tile.
#[derive(Clone, Copy, Debug, PartialEq, Eq, Structural, Hash)]
pub enum TileType {
    NoTile,
    Corridor,
    Room,
    Wall,
    Window,
    Door,
    Entry,
    Exit,
    Deadly,
}

#[derive(Clone, Copy, Debug, PartialEq, Eq, Structural, Hash)]
pub enum Colour {
    NoColour,
    Red,
    Green,
    Blue,
    Cyan,
    Brown,
    White,
    Black,
}

/// The character and colour a tile or object is drawn with.
#[derive(Clone, Copy, Debug, PartialEq, Eq, Structural)]
pub struct Symbol {
    pub character: char,
    pub colour: Colour,
}

/// The fixed description of one kind of tile. The names are those of the tile
/// library, so they are held as static text.
#[derive(Clone, Copy, Debug)]
pub struct TileDetails {
    pub id: u64,
    pub tile_type: TileType,
    pub traversable: bool,
    pub symbol: Symbol,
    pub name: &'static str,
}

impl Symbol {
    /// A white symbol.
    pub fn defaults(character: char) -> (s: Symbol)
        ensures
            s == (Symbol { character, colour: Colour::White }),
    {
        Symbol { character, colour: Colour::White }
    }

    pub fn new(character: char, colour: Colour) -> (s: Symbol)
        ensures
            s == (Symbol { character, colour }),
    {
        Symbol { character, colour }
    }
}

/// The position of a tile type in the library.
pub open spec fn tile_index(t: TileType) -> int {
    match t {
        TileType::NoTile => 0,
        TileType::Corridor => 1,
        TileType::Room => 2,
        TileType::Wall => 3,
        TileType::Window => 4,
        TileType::Door => 5,
        TileType::Entry => 6,
        TileType::Exit => 7,
        TileType::Deadly => 8,
    }
}

/// Whether the library lets a character walk over a tile of this type.
pub open spec fn tile_traversable(t: TileType) -> bool {
    match t {
        TileType::Corridor | TileType::Room | TileType::Door | TileType::Entry | TileType::Exit => true,
        _ => false,
    }
}

/// The symbol the library draws a tile of this type with.
pub open spec fn tile_symbol(t: TileType) -> Symbol {
    match t {
        TileType::NoTile => Symbol { character: ' ', colour: Colour::NoColour },
        TileType::Corridor => Symbol { character: '-', colour: Colour::Blue },
        TileType::Room => Symbol { character: '-', colour: Colour::Blue },
        TileType::Wall => Symbol { character: '#', colour: Colour::Brown },
        TileType::Window => Symbol { character: '%', colour: Colour::Cyan },
        TileType::Door => Symbol { character: '=', colour: Colour::White },
        TileType::Entry => Symbol { character: '^', colour: Colour::Red },
        TileType::Exit => Symbol { character: '^', colour: Colour::Green },
        TileType::Deadly => Symbol { character: '!', colour: Colour::Red },
    }
}

/// The name the library gives a tile of this type.
pub open spec fn tile_name(t: TileType) -> Seq<char> {
    match t {
        TileType::NoTile => "Empty"@,
        TileType::Corridor => "Corridor"@,
        TileType::Room => "Room"@,
        TileType::Wall => "Wall"@,
        TileType::Window => "Window"@,
        TileType::Door => "Door"@,
        TileType::Entry => "Entry"@,
        TileType::Exit => "Exit"@,
        TileType::Deadly => "Deadly"@,
    }
}

/// Whether `d` is the library's description of tile type `t`.
pub open spec fn is_library_tile(d: TileDetails, t: TileType) -> bool {
    &&& d.id == tile_index(t)
    &&& d.tile_type == t
    &&& d.traversable == tile_traversable(t)
    &&& d.symbol == tile_symbol(t)
    &&& d.name@ == tile_name(t)
}

/// The description of every tile type, one per type.
#[derive(Clone, Debug)]
pub struct TileLibrary {
    tiles: Vec<TileDetails>,
}

impl TileLibrary {
    pub closed spec fn wf(&self) -> bool {
        &&& self.tiles@.len() == 9
        &&& forall|i: int| 0 <= i < 9 ==> #[trigger] self.tiles@[i].id == i
        &&& forall|t: TileType| #[trigger] is_library_tile(self.tiles@[tile_index(t)], t)
    }

    /// The number of tile types described.
    pub fn len(&self) -> (n: usize)
        requires
            self.wf(),
        ensures
            n == 9,
    {
        self.tiles.len()
    }

    /// The description of a tile type.
    pub fn get(&self, tile_type: TileType) -> (d: TileDetails)
        requires
            self.wf(),
        ensures
            is_library_tile(d, tile_type),
    {
        let i: usize = match tile_type {
            TileType::NoTile => 0,
            TileType::Corridor => 1,
            TileType::Room => 2,
            TileType::Wall => 3,
            TileType::Window => 4,
            TileType::Door => 5,
            TileType::Entry => 6,
            TileType::Exit => 7,
            TileType::Deadly => 8,
        };
        self.tiles[i]
    }
}

/// The library's description of one tile type.
pub fn library_tile(tile_type: TileType) -> (d: TileDetails)
    ensures
        is_library_tile(d, tile_type),
{
    proof {
        reveal_strlit("Empty");
        reveal_strlit("Corridor");
        reveal_strlit("Room");
        reveal_strlit("Wall");
        reveal_strlit("Window");
        reveal_strlit("Door");
        reveal_strlit("Entry");
        reveal_strlit("Exit");
        reveal_strlit("Deadly");
    }
    match tile_type {
        TileType::NoTile => TileDetails { id: 0, tile_type: TileType::NoTile, traversable: false, symbol: Symbol::new(' ', Colour::NoColour), name: "Empty" },
        TileType::Corridor => TileDetails { id: 1, tile_type: TileType::Corridor, traversable: true, symbol: Symbol::new('-', Colour::Blue), name: "Corridor" },
        TileType::Room => TileDetails { id: 2, tile_type: TileType::Room, traversable: true, symbol: Symbol::new('-', Colour::Blue), name: "Room" },
        TileType::Wall => TileDetails { id: 3, tile_type: TileType::Wall, traversable: false, symbol: Symbol::new('#', Colour::Brown), name: "Wall" },
        TileType::Window => TileDetails { id: 4, tile_type: TileType::Window, traversable: false, symbol: Symbol::new('%', Colour::Cyan), name: "Window" },
        TileType::Door => TileDetails { id: 5, tile_type: TileType::Door, traversable: true, symbol: Symbol::new('=', Colour::White), name: "Door" },
        TileType::Entry => TileDetails { id: 6, tile_type: TileType::Entry, traversable: true, symbol: Symbol::new('^', Colour::Red), name: "Entry" },
        TileType::Exit => TileDetails { id: 7, tile_type: TileType::Exit, traversable: true, symbol: Symbol::new('^', Colour::Green), name: "Exit" },
        TileType::Deadly => TileDetails { id: 8, tile_type: TileType::Deadly, traversable: false, symbol: Symbol::new('!', Colour::Red), name: "Deadly" },
    }
}

/// Builds the library of all nine tile types.
pub fn build_library() -> (library: TileLibrary)
    ensures
        library.wf(),
{
    let mut tiles: Vec<TileDetails> = Vec::new();
    tiles.push(library_tile(TileType::NoTile));
    tiles.push(library_tile(TileType::Corridor));
    tiles.push(library_tile(TileType::Room));
    tiles.push(library_tile(TileType::Wall));
    tiles.push(library_tile(TileType::Window));
    tiles.push(library_tile(TileType::Door));
    tiles.push(library_tile(TileType::Entry));
    tiles.push(library_tile(TileType::Exit));
    tiles.push(library_tile(TileType::Deadly));
    let library = TileLibrary { tiles };
    assert forall|t: TileType| #[trigger] is_library_tile(library.tiles@[tile_index(t)], t) by {
        match t {
            TileType::NoTile => {},
            TileType::Corridor => {},
            TileType::Room => {},
            TileType::Wall => {},
            TileType::Window => {},
            TileType::Door => {},
            TileType::Entry => {},
            TileType::Exit => {},
            TileType::Deadly => {},
        }
    }
    library
}

} // verus!
