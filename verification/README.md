# shell_jobs

Job control for an interactive Unix shell, verified with Verus.

- `src/` is the verified library: the job table (`job`), the `jobs`, `bg`,
  `fg` and `kill` builtins (`cmd`), reading command lines and the session's
  job bookkeeping (`session`), decimal parsing and rendering (`num`), text
  handling (`text`), and the decoding of `waitpid` statuses (`signal`).
  Each builtin decides what happens to the job table and what it prints;
  where a builtin must hand over the terminal, wait for a process or send a
  signal, the library returns what to do and takes back what happened.
- `app/` is the shell itself: the prompt and line editing, `fork`/`exec`,
  terminal control and signals; `cat`, `ls`, `cp`, `mv`, `rm` and `mkdir` run as the
  system's programs.
- `tests/` runs the library on concrete job tables and command lines.
