# pos_backend

The backend of a restaurant point-of-sale system: menu, sales, ingredient
inventory, employees, and translation of the customer-facing texts.

- `src/` is the verified library (Verus). It holds the inventory reports
  (restock and excess), the translation cache and the decisions around
  translating the menu and the keywords of the ordering screen, the reading
  of the translation service's and the token-info service's answers, and the
  sign-in decisions. JSON is read and printed by `serde_json`, behind the
  trusted wrappers of `src/json.rs`.
- `app/` is the HTTP server (actix-web) and the database access (sqlx): it
  reads rows and requests, calls the library, and sends the answers.
- `tests/` runs the library on concrete values.
