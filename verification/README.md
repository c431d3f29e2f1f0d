# atelierbuch

The customer and order book of a sewing studio: customers with running
numbers, orders with invoice numbers, a monthly overview, backups as a
database copy plus two CSV lists, and two password logins.

`src/` is the verified library, checked with Verus:

- `auth` — login decision, account and password rows with their Argon2
  hashes, the random start password of the first account.
- `geschaeft` — running counters read back from their stored text, the
  parameters of the customer search, the rule that an order needs an item.
- `sicherung` — CSV fields and the two CSV lists, the byte order mark, the
  name of a backup folder from its time, the choice of old backup folders to
  clear away.
- `ordnung` — the order of names and a sort by it.
- `zahl`, `text` — decimal text of integers, trimming, string building.

`app/` is the desktop program around it: the Tauri commands, the SQLite
database, files, clock and the amounts, which are floating-point numbers.
