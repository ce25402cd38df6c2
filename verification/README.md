# mv_engine

The decision logic of the MindVault knowledge-vault engine, written in Verus
and verified: every public function states what it returns in its `ensures`,
and the properties that span several functions are stated as public proof
functions (`lemma_*`).

- `src/` — the verified library, one module per concern: Obsidian import
  (`obsidian`, `wikilinks`, `vault_import`), knowledge workspaces
  (`workspace_projection`, `workspace_mount`), governance (`access`,
  `grants`, `auto_approve`, `proposals`, `work_orders`,
  `work_order_transfer`), delivery (`outbox_dispatch`, `inbox_consumer`,
  `outbox_http_publisher`, `federation`, `peers`), relay messages
  (`relay_reply`, `relay_promotion`), tasks, calendar sync, insights,
  embeddings and enrichment. Calls into outside crates (hashing, base64,
  UUIDs, URLs, dates, HTTP client construction) go through small trusted
  wrappers whose contracts say what the crates document.
- `tests/` — tests of the library on concrete values.
- `app/` — the runtime edges: environment settings, vault files, the HTTP
  exchange, JSON wire forms, and the floating-point heuristics (embedding
  similarity, task scoring, confidence tuning).
