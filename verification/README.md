# peter_prompt

A shell prompt built from components, configured in Lua. Each component
reads what it needs (the working directory, git or jj state, tool
versions), renders colored segments, and the segments are laid out into
prompt lines; the `@align` entry sends what follows to the right edge of
the terminal.

Layout:

- `src/` is the library, verified with Verus: colors and segments
  (`color`), display width of terminal text (`width`), line layout
  (`layout`), the registry of component names and groups and the meaning of
  a configuration's returned entries (`registry`), command-line arguments
  (`args`), the components' parsing and rendering (`components`), the
  directory pattern rules (`component`), LuaCATS annotation texts
  (`annotations`), and the text operations they share (`text`).
- `app/` is the program: it runs git, jj and the tool commands, reads the
  directory and the configuration, hosts the Lua interpreter, and hands
  what it got to the library.
- `tests/` exercises the library on concrete values.
