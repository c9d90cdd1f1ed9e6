# dbx

The verified core of DBX's server-side features, written in Verus:

- `sql_lexer`, `sql_safety`: splits SQL text into executable keyword tokens
  (skipping comments, quotes and dollar-quoted bodies, reading MySQL
  executable comments) and rates a statement's risk for a connection.
- `backup_model`, `backup_time`, `backup_scope`, `backup_naming`,
  `backup_store`, `backup_manager`, `backup_export`: scheduled database
  backups — schedule validation, next-run times in the server's time zone,
  which databases and tables a run covers, the names of backup files, every
  change to the stored schedules and runs, the manager's decisions (one run
  at a time, cancellation, how a run ends, downloads), and the step that
  takes a run through its databases and schemas.
- `sql_file_batch`: batches that run one SQL file against several
  connections one at a time in list order, with their snapshots and
  summaries, and the step that decides what the batch runner does next.
- `sql_file_run`: the checks before one uploaded SQL file runs (path, size,
  content), in their order.
- `agent_runtime`: the local agent runtime's request checks and routing.
- `sort`, `text`, `paths`, `ids`: stable sorting, strings, Unix paths and
  random ids used by the above.

`src/` is verified with Verus; `tests/` runs it. `app/` holds the service
around it: the metadata file on disk, the background backup manager and its
scheduler, which perform the database work that the library's steps name,
the batch registry and worker, and the agent runtime's server.
