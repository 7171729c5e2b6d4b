# xnet_status

The status service of an ephemeral xnet deployment and its phase watcher,
with their logic verified by Verus.

- `src/` is the verified library: the lifecycle phase around the cutover
  (`phase`), migration progress (`migration`, `percent`), container health
  (`health`), the events pushed to subscribers and the tracker that emits each
  transition once (`events`), what the JSON API and the HTML fragments show
  (`api`, `htmx`, `pages`), the cutover time in several zones (`cutover`, via
  jiff), reading the cutover file (`state`), Prometheus samples
  (`prometheus`), the watcher's decision (`watcher`), and the text and map
  helpers they share (`text`, `name_map`).
- `app/` is the program around it: configuration loading, Docker and
  Prometheus polling, the axum routes and templates, the background loops,
  and the Cloudflare Worker that dispatches workflows.
- `tests/` exercises the library.

Percentages are held as the bits of the binary64 value the migrator reports,
so that the library can order, clamp and compare them exactly; formatting them
as decimal text is left to the program.
