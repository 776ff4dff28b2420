# lau-training-room

Curriculum-driven training rooms for agents: skill tracking, mentorship,
peer observation and graduation, with an academy that manages many rooms.
The library is written in Verus; every function in `src/` carries a
contract that Verus proves.

## Numbers

Progress, scores, mastery thresholds, difficulties and error margins are
fractions of one whole counted in ten-thousandths: `PROGRESS_SCALE`
(10 000) is 1.0, `MASTERY_LEVEL` (9 900) is 0.99, and an observer gains
`OBSERVATION_SHARE` (3 000, that is 0.3) of the progress it watches.
Means and gains are rounded down to a ten-thousandth; time limits are whole
seconds.

## Layout

- `src/table.rs`: `Table`, the insertion-ordered map keyed by text that
  backs every map of the library.
- `src/progress.rs`: fixed-point clamping, observation gain and means.
- `src/curriculum.rs`: room names, evaluation methods, skills, curricula.
- `src/catalog.rs`: the five curricula that ship with the library.
- `src/trainee.rs`: one agent's progress and attempt counts.
- `src/room.rs`: training rooms and their event log.
- `src/academy.rs`: the academy, its rooms, curricula and histories.
- `src/text.rs`: decimal numerals, room names and room reports.
- `src/laws.rs`: properties that span several operations.
- `tests/`: the behaviour checked on concrete values.
- `app/`: serde-enabled copies of the library's types, with conversions.
