# validate_readme

Checks a README that lists resources: every entry reads
`- [title](https://url): description.` inside a level-three category, no category
is empty, no title and no URL stands twice. Two revisions can be compared
against limits on how much may change at once, and links can be followed.

- `src/` is the library, verified with Verus.
  - `text`, `order`: texts as sequences of characters, numbers, case (folded by the
    `caseless` crate where a text is not ASCII), sorting.
  - `url`: parts and normal form of URLs.
  - `pattern`: the two line patterns, matched by the `regex` crate.
  - `readme`: the model of a README, its resources and its errors.
  - `validate`, `churn`: the checks of one revision and of the step to the next.
  - `links`, `http`: judging links and talking to servers, as steps from an event
    to the next action.
  - `cli`: arguments and closing report of the command.
  - `url_laws`, `readme_laws`, `churn_laws`, `link_laws`: what holds of all of it.
- `app/` is the command: files, `git`, threads and sockets around the library.
- `tests/` runs the library on small examples.
