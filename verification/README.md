# brhap

The logic of an Arma 3 mod launcher, verified with Verus.

`src/` is the library. Each public function states what it returns in its
contract, and Verus proves the code against it:

- `steam`, `config`, `settings`: where Steam, the game, the workshop content
  and brhap's own files live, from what the caller found on disk.
- `mods`, `cache`, `resolve`, `scrape`, `api`, `store`: installed mods from
  `meta.cpp`, the persisted dependency cache, and what Workshop pages and the
  Steam APIs say about each id.
- `launch`, `launcher`, `session`, `profiles`: describing a launch, which links
  are ours to remove, one game at a time, and the saved launches.
- `service`: the operation set a frontend talks to.
- `ui`: the state of the desktop interface and every change a message makes.
- `screen`: what the header, the launch screen and the profiles screen show,
  and which of their controls can be pressed.
- `json`, `map`, `path`, `text`, `find`, `unicode`: the values and text rules
  the rest is written in.

`app/` is the terminal program around it: it reads and writes the files, makes
the network requests and runs the game, and hands each outcome to the library.
