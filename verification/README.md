# anime_dl

Searches the gogo-play.net anime site and finds the download links of an
episode, with the video quality each link shows.

- `src/` is the library, verified with Verus: reading search result pages
  (`provider::gogoplay::search_results`), the pages to fetch for an episode and
  what to read from them (`provider::gogoplay::lookup`, a step-by-step lookup
  that whoever fetches the pages drives), the quality of a link, the text
  forms of the records, and the choices of the command line (`cli`). The
  `cli::provider` modules hold the plain variant of the site reader that works
  on the records of `anime`.
- `app/` is the command line: argument parsing, logging, fetching pages over
  the network and starting the video player.
- `tests/` runs the library on fixed pages.
