# forex_split

Splits a receipt in a foreign currency into categories for bookkeeping in the
home currency (see the use case: a restaurant bill in EUR paid from a SEK account).

- `src/` is the verified library.
  - `text.rs`: white space, the words of a line, how a line of category input
    splits into a category name and a subtotal, decimal numerals.
  - `categories.rs`: names of unnamed categories, the list of categories, and
    the order of the rows of the table (named, then unnamed by number, then `Other`).
  - `session.rs`: the course of a run of the program as a state machine; `run`
    takes what happened and tells what to do next.
  - `laws.rs`: properties of the above that span several functions or calls.
- `app/main.rs` is the program: command line, terminal input and output, and the
  amounts of money, which are floating point.
