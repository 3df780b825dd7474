# siff

A terminal browser for the files of a directory. It shows the directory as a tree, counts the
tokens of the selected files, and hands them to a packing backend, repomix or yek, whose output
ends up on the clipboard.

What the browser decides is a library that Verus verifies; what it reads, prints and runs is an
ordinary program around it.

- `src/` is the library. `path`, `path_map` and `text` are the ground it stands on; `file_utils`
  and `tree_laws` are the file tree; `token_counter` and `token_totals` are the token counts;
  `repomix_integration`, `yek_integration`, `clipboard`, `process` and `backend_task` are the
  backends; `config` and `cli` are the settings; `ui` is the screen; `app` is the whole.
- `app/` is the program: the terminal, the file system, the processes and the tasks.
- `tests/` runs the library.

Every type has a mathematical value, its view, and every function says in its contract what it
makes of the views it is given. `App::handle_key_event`, for instance, takes the app from the view
`v` to the view `input::key_pressed(v, key, now)`. The modules `tree_laws` and `app::laws`, and the
public proof functions next to the code, state what holds of the whole.

What is not proved is what the tokenizer crate does: `token_counter` names the tokens that it gives
and takes from its source that its encoder can be built.
