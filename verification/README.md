# system_utils

Cross-platform system utilities: audio volume and mute, media playback,
power actions with an optional timer, the desktop theme, system information,
metrics and device lists.

The crate is written in Verus. `src/` holds the logic with its contracts:
the commands given to each platform's helper programs and the reading of
their answers, the volume arithmetic, the single pending power action, the
cache that decides when a snapshot is taken again, the classification,
merging and ordering of devices, and every report text (sizes, frequencies
and percentages are shown digit for digit as the `f64` formatting of the
same figures shows them). `app/` runs the programs, reads the hardware and
the clock, and holds the figures that are floating-point numbers.

Laws that span functions are stated as `law_*` proof functions next to the
code they speak of.
