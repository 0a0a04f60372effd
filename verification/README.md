# tda

A terminal to-do list. Tasks have an id, a name and a status
(pending, complete, in progress) and are kept in `tasks/tasks.json`.

- `src/` is the verified library (Verus): the task list and its
  operations (`tasks.rs`), reading typed ids and names (`text.rs`), the
  menu status keys (`vals.rs`), the guard against outside edits of the
  task file (`watch.rs`) and properties across operations (`laws.rs`).
- `app/` is the terminal program: menus, JSON reading and writing of the
  task file, and the file watcher thread.
- `tests/` runs the library on concrete cases.
