# weather_sort

A small station with a 240 by 135 panel, a DHT11 sensor, a lamp and one button. It
has two screens. The weather screen shows temperature, humidity and the time of
day. The sorting screen draws twenty bars of random height and animates a quicksort
over them, again and again. The button switches between the two.

- `src/` holds everything that the station decides, verified with Verus. It takes
  and returns plain values.
  - `controller` goes from each report of the sensor or the button to what is shown
    and what is looked at next; `course` states what holds over whole runs.
  - `sort` is the sort, one comparison at a time; `sort_model` defines its states
    and steps and proves that it ends, in order, with the bars it began with.
  - `bars`, `icons`, `weather`, `text` and `color` say what is painted; `canvas`
    models the panel and proves what is seen on it.
  - `clock` and `rng` keep the time of day and draw the heights.
- `tests/` runs the library on concrete values.
- `app/` is the firmware for the board: it reads the pins and drives the panel.
