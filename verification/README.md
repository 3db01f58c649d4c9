# personal_site

The logic of a terminal-style personal website, with its behaviour stated
in contracts and proved with Verus.

The site is a shell over a virtual filesystem: `ls`, `cd`, `cat`, `touch`,
`mkdir`, `rm`, `cp`, `mv`, `which`, `history`, `ps`, `kill`, aliases and
`$VARIABLES`, tab completion and history cycling in the prompt, and a blog
whose posts can be searched with a regular expression.

Layout:

- `src/vfs.rs`, `src/tree.rs`: the filesystem, a tree kept in an
  `indextree` arena, modelled as a map from node ids to records.
- `src/fs.rs`, `src/fs_tools.rs`, `src/cp_mv_tools.rs`: path handling and
  the filesystem commands.
- `src/simple_tools.rs`, `src/ps_tools.rs`, `src/system_tools.rs`,
  `src/command.rs`: the other commands and their answers.
- `src/terminal.rs`: the shell: history, aliases, variables, dispatch and
  tab completion.
- `src/prompt.rs`, `src/screen.rs`, `src/components.rs`: the command input
  (a state machine driven by key presses), the terminal's output, and the
  column layout of listings.
- `src/blog.rs`, `src/highlight.rs`: post headers, listings and search,
  and the rendering of a post's Markdown to HTML (parsed by
  `pulldown-cmark`, each code block coloured by `syntect` in the
  GitHub theme (`InspiredGitHub`)).
- `src/laws.rs`, `src/shell_laws.rs`, `src/vfs_laws.rs`, `src/fs_laws.rs`:
  properties that span several functions.
- `app/`: a line-oriented front end that reads the blog folder and runs
  commands typed on standard input.
