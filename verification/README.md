# cairo_filters

Compact views of what the Cairo tools `scarb` and `snforge` print.

- `src/` is the library. It decides how a tool is run, reads what it printed and builds the view.
  Every function states what it returns, and Verus proves it.
- `app/` runs the tools and shows the views.
- `tests/` holds the tests of the library.

| Module | What it holds |
| --- | --- |
| `text`, `containment` | texts as sequences of characters: lines, trimming, searching, joining |
| `strings`, `number`, `counts` | the same operations on strings; decimal numbers; counts in words |
| `pattern` | regular expressions, through the `regex` crate |
| `invocation` | what is run, under which names, and what becomes of its output |
| `scarb_cmd` | `scarb build`, `scarb check`, `scarb test` |
| `snforge_cmd` | `snforge test` |

The modules named `*_laws` state what a view keeps of the output that it stands for: which errors,
failures and summaries stand in it, that those beyond the limits are counted, and that blocks and
failures hold no noise.

Two items are believed without proof: what `String::push` does, and that the groups of a regular
expression's match depend on the pattern and the text alone.
