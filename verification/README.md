# code_runner

A web service that runs submitted code in docker containers, one image per
language, with its logic verified by Verus.

- `src/` is the verified library. The docker command lines are data
  (`common::docker_command`); what a run, the building of the images and the
  adding of a language do next is a state machine per task
  (`service::runner`, `service::image`, `api`), each step with a contract and
  laws over every sequence of outcomes. Reading `config.txt`, the output of
  `docker image ls`, the result file of a run, paths, and the plan for
  unpacking an uploaded zip archive are verified functions on text and bytes.
- `app/` is the program: the rocket routes, running the commands that the
  library writes, the file system, and the thread pool that builds images.
- `tests/` runs the library on concrete values.
