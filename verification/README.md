# tetris

A Tetris game with recorded, replayable games and a highscore server, and the
mesh building of a planet renderer, written in Verus: the game rules, the
recording and its playback, the planet's quadtree and index buffers and the
message sealing are proved against their contracts.

Layout:

- `src/` — the verified library
  - `piece`, `stack`, `state`, `game`, `config` — pieces, the field, the history
    of snapshots, one frame of play, the rules
  - `replay`, `recording` — the 16-bit recording of a game, its playback, and
    the proof that a game's recording plays back to the game's snapshots
  - `array2d` — a dense grid
  - `plate`, `plateoptimizer`, `mesh`, `channels` — quadtree squares, the mesh
    optimizer, full-detail and water index buffers, shader channel declarations
  - `curve25519`, `client`, `networking`, `highscores`, `savegames` — sealed
    messages, requests to the server, the base64 text that messages travel as and
    the reading of the server's reply, the highscore query text, stored planets
- `tests/` — tests of the library
- `app/` — the server program (standard input and output, SQLite, JSON), the serializable copies of the library's types, and what computes in
  floating point (the replay viewer's clock, positions on the sphere, texture
  coordinates)
