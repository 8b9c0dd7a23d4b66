# cibars

A terminal UI that shows AWS CodePipelines and GitHub Actions runs as
animated, color-coded bars, meant to run in a tmux pane.

The rules of the program are a library verified with Verus (`src/`):

- `poll_scheduler` — the polling state machine (Sleep, then Grace,
  Active and Cooldown while polling) and its laws.
- `orchestrator` — what a boost, a push signal (SIGUSR1 from the
  pre-push hook) or the end of a poll cycle does to the scheduler and the
  shown state.
- `model`, `app` — bars, groups, the shown state, warnings and watched
  pull requests.
- `poller` — turning API answers into groups and bars (AWS statuses,
  GitHub runs, jobs, workflow files and their S3 uploads).
- `linkage` — linking workflows to the pipelines their S3 uploads feed,
  runtime correlation, suppressing linked workflows, and the per-pipeline
  job assignment (`linkage::assign`), which does not depend on the order
  in which a workflow lists its jobs (`linkage::job_order`).
- `config` — command line, configuration file, workflow categories, and
  the pre-push hook's contents and state.
- `ui` — ordering, widths, heights, bar layout, title dots, header and
  status line.

`app/` is the program around it: configuration loading, the AWS and
GitHub clients, files, signals, the async poll loop and the terminal.

Usage:

```bash
cibars --aws-profile <profile> --region <region> --github-repo <owner/repo> [--branch <branch>]
```

Keys: `e` expand/collapse, `b` boost, `p`/`g` install the pre-push hook
(locally / in the global hooks directory), `l` re-discover links, `q`
quit.
