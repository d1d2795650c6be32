# agcavc104test

A test bench for both sides of an IEC 60870-5-104 link of AGC and AVC stations.
The collecting side is a simulated station that answers interrogations and
commands and reports changes of its points. The dispatching side is a simulated
control centre that interrogates a station and commands it. An operator works
both from one terminal.

## Layout

- `src/` is the library. Every function in it is verified with Verus against the
  contract in its header.
  - `text`, `number`, `clock`, `random`, `order` and `table` are what the rest
    builds on: texts, floating point numbers as bit patterns, calendar fields,
    chance, stable sorting, and tables of values.
  - `config` and `model` hold the settings, the point tables and what the parts
    of the program tell each other.
  - `protocol` holds the link: `element`, `message`, `codec`, `iec` and `frame`
    are the octets of units and frames; `wire` is the link layer with its
    sequence numbers and timers; `asdu` makes requests and the texts about
    units; `station` and `collect` are the collecting side; `round`, `receipt`
    and `dispatch` are the dispatching side; `desk` gathers what a side puts
    out; `exchange` relates the two sides.
  - `runtime` coordinates the two sides, above all the reload of both point
    tables in two steps.
  - `ui` is the screen: its areas, forms, logs and texts, and what keys and the
    mouse do.
- `app/` is the program around the library: files, sockets, the terminal and
  floating point arithmetic.
- `tests/` runs the library.

## How the parts work together

The two sides, the coordinator and the screen are state machines. Each step is a
method that takes the event and the time, changes the state and returns or puts
out what is to be done. The contracts state each step as a function on views, so
that the laws about them (the proof functions named `law_..`) speak of the same
functions as the code.

Floating point numbers are carried as their bit patterns, together with the
renderings that are shown. Where a number has to be computed, the program
computes it and hands it to the library.

Frames are written by the program. A session takes what became of them from
`LinkSession::writes`: a frame is taken as written unless a reason stands there.
The program takes a step, writes the frames that it put out, and takes the step
anew with the reason where one could not be written, so that the contracts also
say what a failed write leads to.
