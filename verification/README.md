# Ordo

A workspace and window navigation daemon for macOS. The logic of its shell is
verified in Verus.

The daemon watches the desktop, puts what it sees and what the user presses to a
core, carries out what the core decides and logs every step. The core decides
what a step leads to; it is a crate of its own, which the library takes as a
function from a state and an event to a step. Wherever that function gives the
same step for the same state and event, a logged run replays clean. A kill switch
hands the desktop back at any time.

## Layout

- `src/` is the library. Everything in it is verified; nothing in it touches the
  system, apart from reading the clock.
  - `engine` plans batches of messages, folds bursts of presses, and reacts to
    one event at a time; `replay` runs a log through the core again.
  - `keys` is the chord table; `platform::tap` is the event tap, the kill switch
    with it.
  - `logger` and `schema` are the rows of the log and the statements that make
    and migrate its tables; `statefile` and `rescue` read back what was written.
  - `menubar`, `platform::status_item` and `platform::monitor_map` are what the
    menu bar shows and how it answers the mouse.
  - The other modules under `platform` are the decisions around the window
    server, the Accessibility API, displays and Spaces.
- `app/` is the program: the command line, the log on disk and, on macOS, the
  threads, the calls into the system and the loops that run the library's steps.
  What it decides by itself is what is computed in floating point, which app or
  window element is asked for a window, and how drawing and input handles are
  held. None of it is verified.
- `tests/` runs the library.

## What is stated

Each function says what it returns and changes. Of the engine that is the whole
course of its calls: what it looks at, carries out and hands to the journal, in
order. What its ports do when called is theirs to say, but for a journal, which
numbers the steps it is given one after the other; of the clock only how a reading
is made up of the system's times.

What relates several functions stands beside them as proof functions whose names
begin with `law_`: that a log replays clean, that the steps of a run are
numbered without a gap and a burst names its own first event, that an
interrupted upgrade resumes, that two presses of the rescue chord free the
keyboard and the pointer, that no landing of a window is lost, that folding a
burst never changes where it leads, that nothing is looked at ahead of a message
that changes what is seen.

Coordinates are doubles. The library carries their bits and never computes with
them.
