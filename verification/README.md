# tscope

Debugging and watching embedded firmware over a debug probe: reading variables
by name while the core runs, dumping memory, watch windows and plots, writing
firmware, and an interactive debugging prompt.

The crate is in two parts.

- `src/` is the library, written in Verus. It holds what the tool decides and
  computes, and every function in it is verified against its contract.
- `app/` is the program around it: the command line, probes, files, terminals,
  windows and child processes, and the arithmetic on floating-point numbers.

## The library

| Modules | What they are about |
|---|---|
| `config`, `session` | the configuration, and the choice of probe and chip |
| `dwarf`, `symbol`, `type_info`, `layout`, `likeness` | debug information, variables and their types |
| `member_path`, `variable`, `render` | expressions such as `items[0].v.x`, and values as text |
| `code_map`, `backtrace` | functions, source lines and call stacks |
| `hexdump`, `dump_watch` | memory dumps, printed and watched |
| `watch`, `watch_app`, `watch_feed` | watch groups, their window, and the lines that feed it |
| `plot`, `plot_app`, `plot_feed`, `curve`, `source`, `csv`, `calendar` | plots, their window, the lines that feed it, and exports |
| `command`, `breakpoints`, `stepping`, `target`, `listing` | the debugging prompt |
| `sampling`, `link`, `feed` | the beat of sampling and the windows' processes |
| `flash` | writing firmware |
| `text`, `number`, `double`, `table` | texts, numbers and tables |

Memory, files, the clock and floating-point numbers reach the library as plain
values or through functions that the caller hands in. The crates `object`,
`gimli` and `probe-rs` are called through small wrappers whose contracts are
trusted; each says in its comment what it claims of the outside function.

Statements that span several functions stand beside them as public proof
functions whose names start with `law_`.
