# rvcd

The core of a VCD waveform viewer, verified with Verus.

`src/` holds what the viewer computes, each function with a contract that
Verus proves:

- `radix`: the text of a bit vector in binary, octal, decimal or hexadecimal,
  with `x` and `z` digits, and the packing of bits into little-endian bytes.
- `wave`: values, value changes and their compression, signal and scope
  information, lookup of the value at a time.
  - `wave::vcd_parser`: from a parsed VCD header to signal names, paths and
    outlines; the last timestamp of a file from its last lines; the loader that
    reads value changes one at a time and reports progress.
  - `wave::vcd_read`: the bytes of a VCD file as the `vcd` crate reads them,
    read back into the library's types.
  - `wave::vcd_load`: loading a wave from a header and its commands, and from
    the bytes of a file.
  - `wave::scope_tree`: the scope tree, with scopes of one name merged.
- `size`: human-readable file sizes.
- `view`, `tree_view`, `rvcd`, `windows`, `code`: the decisions of the viewer's
  windows: cursors, time labels, how a value is drawn, which tree nodes are
  listed and match a search, window bookkeeping, where a jump into source code
  lands, editor states.
- `verilog`: the collector of modules, ports, registers and wires of a Verilog
  parse.
- `manager`, `client`: the registry of running viewers and a viewer's report
  to it.
- `service`: the flags of the file loader.

`app/` is a command-line front end: it reads VCD files from disk, hands their
bytes to the library, and prints what it computed.
