# projectionist

Project-aware file navigation driven by a `projections.json` file (in the
style of vim-projectionist): glob patterns such as `src/*.ts` map files to
their alternate (`test/{}.test.ts`), related files, a type, a template for new
files and a search pattern. Placeholders (`{}`, `{name}`, `{|plural}`,
`{|basename|uppercase}`) are expanded with the stem that the `*` captured.

The library in `src/` is verified with Verus:

- `transform` - the placeholder transformations and the expansion of templates;
- `placeholders` - named placeholder values;
- `matcher` - glob patterns and matching files against a project's projections;
- `config` - a projection's configuration and the projections of a project;
- `project` - choosing the project root from what was found in each directory
  on the way up;
- `commands` - the alternate, related, info and create commands, on paths held
  as strings;
- `strings`, `paths` - character helpers, and the `std::path` operations that
  the commands use.

`app/` is the command-line program: argument parsing, reading and parsing the
configuration file, looking at the file system (which directories hold a
configuration file or a project marker, which files exist), writing created
files and printing results.
