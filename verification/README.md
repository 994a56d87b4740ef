# arq

The game logic of a terminal roguelike, verified with Verus.

`src/` is the library, verified against its contracts; its few calls into
`uuid`, `rand` and std formatting stand behind small trusted wrappers:

- `position`, `resolution`, `tile`, `map`: the grid, areas and their sides,
  tiles, rooms and doors, and the map with the containers lying on it.
- `map_generator`: room placement at random, keeping rooms inside the map and
  clear of each other, with doors in the middle of their walls; drawing rooms
  and laying floor containers.
- `items`, `equipment`, `container`, `container_util`, `level`: items, what a
  character wears and equipping it from the inventory, the tree of containers
  with search, capacity and in-place change, and taking, dropping and moving
  items between containers.
- `item_list_selection`, `option_list_selection`, `menu`, `input`, `util`: the
  paged item list with range selection, menus, key bindings and key names.
- `scope`, `look`, `ui`, `view`, `settings`, `progress`, `errors`, `character`,
  `attributes`, `combat`, `text`: the rest of the game's model.

`app/` is the terminal program: it reads the settings file, runs the start
menu on raw terminal input, and draws a generated map.
