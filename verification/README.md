# irene

A companion for the niri compositor that keeps tiled windows in an equal grid
or in a master-stack layout, compresses a workspace on demand, and scales the
terminal font with the density of the grid.

- `src/` is the verified core. It decides and computes, and performs no input
  or output: callers hand it what the compositor and the file system said and
  carry out the actions and file contents that it returns.
- `app/` is the program around it: the command line, the compositor's socket,
  files, locks and signals.
- `tests/` runs the core on concrete values.

## Modules

| module           | subject                                                      |
|------------------|--------------------------------------------------------------|
| `model`          | windows, workspaces, outputs and actions as plain values     |
| `text`, `number` | white space, letter case, lines, decimal numbers             |
| `order`          | stable sorting of tiles                                      |
| `layout`         | usable areas, equal shares, the columns of a workspace       |
| `grid`           | equal-grid plans                                             |
| `master_stack`   | master-stack plans                                           |
| `font`           | font sizes for a grid, terminal processes                    |
| `ghostty_config` | the font size in the terminal's configuration                |
| `snapshot`       | what a compressed workspace looked like before               |
| `compression`    | compressing and restoring, one step at a time                |
| `outputs`        | size and scale of outputs by name                            |
| `refresh`        | which plan a workspace gets                                  |
| `delivery`       | carrying plans and commands out, one step at a time          |
| `steady`         | what plans do not depend on                                  |
| `daemon`         | which workspaces an event leaves in need of a new layout     |
| `mode`, `config` | the tiling mode and the measures of the layout               |
| `reply`          | what the compositor's replies mean                           |
| `status`         | the status report                                            |

Font sizes are counted in tenths of a point. Floating-point values that only
pass through are carried as their bits.
