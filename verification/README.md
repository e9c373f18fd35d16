# riddle

The diary of Tom Riddle for reMarkable tablets: write on the page, and after a
pause the diary drinks the ink, asks an oracle, writes the answer in a flowing
hand, lets it linger and fades it.

`src/` is the verified library (Verus):

- `evdev` — decoding raw `input_event` records (record size per pointer width),
  device-name matching;
- `panel` — the two tablet models and their screen geometry;
- `pen` (+ `pen/elan`, `pen/wacom`) — digitizer-to-screen mappings and the
  per-frame pen decoder;
- `touch` (+ `touch/rm2`, `touch/paper_pro`) — multitouch slot tracking and
  the quit gestures;
- `power` — power-key presses and the suspend counter;
- `rm2fb` — update requests for the reMarkable 2 framebuffer server;
- `display` — what each panel operation asks of each backend;
- `diary` — the page's state machine (ink, drinking, thinking, replying,
  lingering, fading) and the reply's stroke walker;
- `layout` — placement of the reply's lines and their wobble;
- `bounds` — the boxes that cover drawn points with a margin.

`app/` is the device program around it: opening and reading input devices,
the framebuffer backends, the oracle, font rasterizing and the main loop.
`tests/` exercises the library on concrete values.
