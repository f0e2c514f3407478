# check_package

Looks for vulnerable package versions in JavaScript and Rust projects.

`data.json` lists vulnerable packages, each with SemVer requirements that
describe its vulnerable versions; `repos.json` lists project folders and their
language. For each project the program asks `yarn why <package>` (JavaScript)
or `cargo tree` (Rust) which versions of each package the project holds, and
reports `package@requirement` for every requirement that one of them matches.

Layout:

- `src/` — the verified library (Verus):
  - `text.rs`: splitting text into lines, white space, searching characters;
  - `version.rs`: the shape of version texts, and SemVer versions and
    requirements (parsed and matched by the `semver` crate);
  - `yarn.rs`: reading `yarn why` reports (`JsChecker`);
  - `tree.rs`: reading `cargo tree` output (`CargoChecker`);
  - `repo.rs`: projects, packages, the queries to ask and the findings.
- `app/main.rs` — the program: reads the JSON files, runs `yarn` and `cargo`,
  prints the findings.
- `tests/` — tests of the library, among them comparisons with the regular
  expressions that describe the two report formats.
