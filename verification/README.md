# hypreact

The core of a tiling window manager whose layouts are written as
components and styled with a small stylesheet language, with the text
analysis that its stylesheet language server relies on. Verus proves the
contracts of the functions in `src/`; a few small internal helpers carry no
contract of their own, and the body of the trusted function named at the
end is believed, not proved.

## Layout

- `src/` — the verified library.
  - Window-manager state: `wm` (windows, workspaces, outputs, focus memory),
    `workspace` (selection, default layouts, window placement), `command`
    and `host` (commands and the host actions they produce), `snapshot`
    (what clients are shown), `layout`, `types`, `ids`.
  - Focus and geometry: `focus` (focus scopes), `focus_visual` (scopes
    inferred from window geometry), `navigation` (directional focus and
    window swaps), `resize` (partition shares and resize steps).
  - Caching: `artifact_state` (cached artifacts and their dependency graph),
    `layout_dependencies` (the edges a prepared layout adds to that graph),
    `prepared_layouts` (whether a prepared layout is reused, and storing it),
    `layout_context` (what a layout is evaluated against),
    `runtime_contract`, `runtime_error`.
  - Configuration discovery: `config`, `lsp_workspace`.
  - Stylesheets: `language` (the supported properties, keys and
    pseudo-classes), `css_source` (positions in stylesheet text),
    `css_types`, `declaration_names` (the property each kind of compiled
    declaration sets), `css_diagnostics`, `syntax` (byte-level scanning),
    `cursor` (cursor context, positions and offsets), `hover`, `ranking`,
    `code_actions` (quick fixes for unknown selectors), `selector_references`
    (where a selector is used across stylesheets), `lsp_requests` (which
    handler a request goes to), `lsp_project`.
  - Shared vocabulary: `text`, `seq_util`, `id_map` (a map kept sorted by
    key text).
- `tests/` — tests of the library on concrete values.
- `app/` — file-system and environment access, and the serialisable copies
  of library types.

The CSS tokenizer of the `cssparser` crate is reached through one trusted
function in `src/cursor.rs`, whose result is named and not described.

Not part of this crate: the stylesheet parser and compiler, which are
written as implementations of `cssparser`'s rule-parser traits and of the
`selectors` crate's traits; the language server's transport, project index
and stylesheet analysis; and the floating-point layout space.
