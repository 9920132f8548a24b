# holidays

Chinese public holidays: data files of one year each are taken into a SQLite
database, and days and years are looked up in it, on the command line or over
REST.

`src/` is the library. It is verified with Verus: every function states what it
returns, and the proofs are checked with it.

| module | |
|--------|---|
| `model` | records, categories, the answer for a day, dates and values as they are written |
| `calendar` | days of the Gregorian calendar, and the calls of `chrono` |
| `text` | trimming, splitting, numbers in decimal, the order of texts |
| `record_map` | the entries of a data file, by date |
| `sqlite` | the tables, and the statements that are run through `rusqlite` |
| `db` | the store: writing records, transactions, days, years and counts |
| `importer` | taking data files in, one by one or a directory at a time |
| `api`, `api::docs` | the answers of the REST interface, its routes and their description |
| `terminal`, `report` | columns and tables on the terminal, the lines that the commands print |
| `probe` | the health probe |
| `laws` | what holds of the library as a whole |

What `rusqlite`, `chrono` and `unicode-width` do is not proved. Each call of them
stands in a function of its own, with a contract that says what it is taken to do.
What SQLite is said to do holds as long as nobody else writes to the database; for
a database in memory that is always so.

`app/` is the program around the library: arguments, files, the HTTP server, and
the JSON bodies. `tests/` holds the tests of the library.

## Data files

`data/` has a file for each year, such as `2026.json`:

```json
{
  "holidays":   { "2026-01-01": "New Year's Day,元旦,1" },
  "workdays":   { "2026-01-04": "New Year's Day,元旦,1" },
  "inLieuDays": { "2026-01-02": "New Year's Day,元旦,1" }
}
```

A value is the English name, the Chinese name and the statutory days; the days
stand behind the last comma. There is one record for each date and category, and a
later one takes the place of an earlier one, so files can be imported again and
again.
