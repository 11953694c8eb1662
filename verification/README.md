# game_core

A small tile-based woodcutting game: a generated 200 x 200 world of grass,
lakes, roads, trees and rocks; heroes that walk along shortest paths and chop
trees for logs and woodcutting experience; a software renderer that draws the
world, the sprites and the HUD into an RGBA frame.

The library (`src/`) is verified with Verus:

- `world` — terrain, objects, map generation and walkability;
- `pathfind` — A* search, proved to return a shortest walk whenever one exists;
- `item`, `skills` — the inventory and the experience curve;
- `client` — the login form, the HUD buttons and where a click sends the hero;
- `chopping` — what a click means in the single-player game and what a chop does;
- `render` — every drawing routine, each specified pixel by pixel;
- `protocol` — plain values exchanged with the server.

`app/` holds what stays outside the verified library: the websocket server,
the browser bindings of the multiplayer and single-player clients, and the
floating-point movement, camera and animation code.
