# cxlib_app

The data store and command decisions of a sign-in helper for a course platform,
written in Verus and verified.

- `src/` is the verified library: the records kept in the tables (accounts,
  settings and cookies, courses, places and their aliases, cached activities,
  excluded courses), the table operations, the text formats of import and export,
  and what the commands decide (adding, removing and reducing places, listing
  places and courses, choosing and ordering the courses and sign-ins of a run).
  Contracts speak of the tables as maps; laws such as the round trips of the
  text formats are proof functions beside the code they are about.
- `tests/` runs the library on concrete values.
- `app/` is the front end: command line parsing, the database file, the
  terminal. It loads the tables, hands them to the library, and writes them back.
