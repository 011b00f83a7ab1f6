# true-cyber

The `cyber` command-line node of the soft3 chaosnet (spacepussy-test), with
its logic verified by Verus.

- `src/` — the verified library:
  - `text` — trimming, searching, lines, decimal numbers, building strings;
  - `hexcode` — hex spelling of bytes and particles;
  - `identity` — the 32-byte key a label names (hex, or its Hemera hash);
  - `status` — the peer status wire (cybermark frontmatter, legacy JSON);
  - `args` — the command word, flags, the RPC endpoint, link requests;
  - `framing` — the check that a signal log is safe to hand to the frame decoder;
  - `cell` — replaying the signal log into a cybergraph;
  - `link` — the signal frame `cyber link` sends and the receipt it prints;
  - `sync` — endpoints, pulled bytes and the verdict of `cyber sync`.
- `app/main.rs` — arguments, environment, files, HTTP and printing.
- `tests/` — tests of the library on concrete values.
