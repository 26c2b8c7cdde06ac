# herdr-agent-diff

A read-only Git review pane for the Herdr terminal multiplexer: local changes, unpushed
commits, the history of a branch and the files of a workspace, in one viewer.

The logic of the viewer is a library that is verified with Verus. What touches the outside
world is a thin program around it.

## Layout

| Where | What |
| --- | --- |
| `src/app.rs`, `src/behavior.rs` | The state of the viewer, and what keys, the mouse and results make of it. |
| `src/view.rs`, `src/diff_view.rs`, `src/source.rs`, `src/style.rs` | What is drawn: panes, diffs, source lines, colors. |
| `src/navigation.rs`, `src/picker.rs`, `src/session.rs`, `src/scrollbar.rs`, `src/cache.rs` | Its parts: the sidebar, the commit picker, tabs, scrollbars and caches. |
| `src/event_loop.rs`, `src/worker.rs`, `src/tasks.rs`, `src/watch.rs` | The turns of the loop, the tasks of the worker and the polling of the workspace. |
| `src/git.rs`, `src/changes.rs`, `src/diff.rs`, `src/project.rs`, `src/workspace.rs` | The Git queries and what is read from their output, and which files of a workspace are listed. |
| `src/highlight.rs`, `src/clipboard.rs`, `src/base64.rs` | Syntax highlighting in chunks, and copying. |
| `src/herdr.rs`, `src/context.rs`, `src/state.rs`, `src/program.rs` | Invocation by Herdr, and the viewers that are remembered. |
| `src/path.rs`, `src/lines.rs`, `src/text.rs`, `src/numbers.rs`, `src/width.rs`, `src/geometry.rs`, `src/json.rs` | Paths, text, numbers, columns, rectangles and JSON. |
| `src/laws.rs` | What holds of the viewer as a whole. |
| `app/` | The program: processes, files, threads and the terminal. |
| `tests/` | The library at work. |

Every state has a model in mathematical types (`AppModel`, `World`, `Turn`), and every
executable function says in its contract what it does to that model. Work that takes
several outside commands is written as a function from the replies so far to the next
command or the result, so that the program only runs what it is told to run.

## What is trusted

Calls into `ratatui`, `syntect`, `serde_json`, `unicode-width` and a few functions of the
standard library stand behind small functions whose contracts are believed. Each of them
says in its comment what it calls and what is claimed of it: see `geometry.rs`,
`highlight.rs`, `json.rs`, `width.rs` and the beginning of `text.rs`.
