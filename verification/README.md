# drizzle_export

Generates Drizzle ORM (`drizzle-orm/pg-core`) TypeScript schema code from table
definitions, with the generator's behaviour stated in Verus contracts and proved.

- `src/model.rs`: the table definitions the generator reads.
- `src/enums.rs`, `src/types.rs`, `src/defaults.rs`: case conversion, `pgEnum`
  declarations, column constructors, and column defaults.
- `src/render.rs`, `src/relations.rs`: table and `relations(...)` declarations.
- `src/drizzle.rs`: single entities, multi-table export, and the whole
  `schema.ts` file with its imports, together with the laws that tie what a
  schema uses to what it imports.
- `src/text.rs`: string specifications and helpers.
- `app/`: conversion from `vespertide_core` definitions to the model above.
