# spider_enterprise_crawler

A crawler for websites that need a logged-in session. It loads its settings
(with `${NAME}` placeholders filled from the environment and `.env`), takes
the session cookies from Redis when they are still valid or logs in to get
new ones, and crawls the target with them, saving every page.

- `src/` is the verified library (Verus): placeholder expansion, the login
  procedures as a state machine, cookie storage text and its read-back,
  page titles, the names pages are saved under, crawl plans and counters.
- `app/` is the program around it: file, network, Redis, browser crawling,
  metrics serving and logging.
- `tests/` exercise the library on concrete inputs.
