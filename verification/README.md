# workbindr

The rules of the WorkBindr enterprise workspace, verified with Verus: the
employee registry and its access rule, tasks and who may change them,
notifications, department-scoped chat, the permanent event log's line format
and the counts taken from it, which documents an employee may see or have an
answer grounded in, and what each request of the web service changes and
records and, apart from the ranking of search results and the choice of the
closest document (both floating point), what it answers.

- `src/` — the verified library (`employees`, `tasks`, `notifications`, `chat`,
  `events`, `documents`, `service`, `reports`, with `order` for stable
  timestamp order and `text` for string helpers).
- `app/` — the Rocket web service around it: HTTP, JSON files, the event log
  file, the clock, and the embedding and chat-completion services (whose
  similarity scores are floating point).
- `tests/` — tests of the library on concrete values.

The employee registry keeps its records in a `Vec` whose invariant is that no
id occurs twice, and looks them up by id, rather than in a
`HashMap<String, Employee>`: with `String` keys Verus's specification of
`HashMap` proves nothing about what the map holds, so none of the registry's
rules could be stated over it. Listings that the service shows in id order
(`get_all_employees`) are sorted explicitly.
