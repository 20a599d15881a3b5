# Venture

A terminal game that turns a work session into a quest: the hours of work are a
march along a trail to a castle, and the tasks are monsters to slay.

- `src/` is the verified library: the quest state and its clock (`app`), the
  key handling of every scene (`controller`), the world map (`map`), the dotdo
  task filter (`dotdo`), the display decisions (`ui`) and decimal text (`text`).
- `app/` is the terminal program around it: reading the dotdo file, computing
  the sine-wave offsets that steer the trail and bend the rivers (the library
  builds the map from them), drawing with ratatui, and the event loop.
- `tests/` exercises the library on concrete quests.
