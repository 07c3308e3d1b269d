# radio

An interactive terminal radio player for macOS, with its logic verified by
[Verus](https://github.com/verus-lang/verus). Browse a set of stations by
category, play them through `ffmpeg`, and watch a live waveform and the title
of the track.

```sh
radio                 # the player
radio --list          # all stations, grouped by category
radio "kexp"          # play a station by its name or a part of it
radio --help          # usage
```

| Key       | Action                          |
|-----------|---------------------------------|
| `j` / `k` | Move down / up                  |
| `Tab`     | Step through a category         |
| `Enter`   | Play the station, or the first of the category |
| `b`       | Back out to the category        |
| `s`       | Stop playback                   |
| `p`       | Pause / resume                  |
| `+` / `-` | Volume up / down                |
| `q`       | Quit                            |

## Layout

- `src/` is the verified library. It decides and computes: the state of the
  player and what each key and event does to it (`player`), the screen as
  drawing commands (`screen`), the waveform meter (`wave`), titles out of ICY
  metadata (`icy`), stations, categories and search (`station`, `search`), and
  the command line (`cli`). Contracts are stated over sequences of characters
  and bytes; the functions named `law_...` state what holds of the library as
  a whole.
- `src/unicode.rs` holds all that is believed without proof: what the standard
  library answers about characters and encodings.
- `app/` is the program around it: the terminal, `ffmpeg`, HTTP, threads and
  signals. It hands plain values to the library and does what it is told.
- `tests/` runs the library on concrete values.

## Adding stations

Stations live in the table `STATIONS` in `src/station.rs`. Append a row with
name, address, category, description and quality, raise `STATION_COUNT`, and
reveal the new name in `lemma_built_in_names` in `src/search.rs`. Names of the
same length must differ in their first 32 characters for that proof.
Categories follow from the third column, in the order in which they first
appear.
