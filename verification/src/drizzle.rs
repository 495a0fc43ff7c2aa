//! Whole-entity and whole-schema rendering.

use vstd::prelude::*;

use crate::enums::{
    camel, enum_decl, pascal, push_str, render_enum_decl, to_camel_case, to_pascal_case,
};
use crate::defaults::{default_chain, default_needs_sql, lemma_sql_template_matches_needs_sql};
use crate::model::{ColumnDef, ColumnType, ComplexColumnType, EnumValues, TableConstraint, TableDef};
use crate::relations::{
    back_rels, block_back_rels, fk_cols_to, forward_lines, relations_block, render_relations_block,
};
use crate::relations::fk_ref_table;
use crate::defaults::drizzle_default_needs_sql;
use crate::render::{
    first_pk, index_lines, last_fk_on, lemma_last_fk_on, pk_lines, unique_lines,
    auto_inc, extract_pk_info, pk_auto, pk_columns, render_table, single_fk_col, table_block,
};
use crate::types::{
    lemma_pg_names_sorted, lemma_every_type_listed, lemma_pg_name_injective, lex_lt,
    all_pg_core_types, col_symbol, col_type_symbol, core_type_of, pg_core_type_name, pg_name,
    PgCoreType,
};
use crate::text::{chars_of, contains_string, join, join_strings, starts_with, str_eq, views};

verus! {

/// A declared enum: its name and values.
pub type EnumEntry = (Seq<char>, EnumValues);

/// The string enum of a column, if it has one.
pub open spec fn string_enum_of(col: ColumnDef) -> Option<EnumEntry> {
    match col.column_type {
        ColumnType::Complex(ComplexColumnType::Enum { name, values }) => match values {
            EnumValues::String(_) => Some((name@, values)),
            _ => None,
        },
        _ => None,
    }
}

/// The names of enum entries.
pub open spec fn entry_names(es: Seq<EnumEntry>) -> Seq<Seq<char>> {
    es.map_values(|e: EnumEntry| e.0)
}

/// `acc` followed by the entries of `es` whose names are not yet present, in
/// order (the first entry of a name is kept).
pub open spec fn add_new(acc: Seq<EnumEntry>, es: Seq<EnumEntry>) -> Seq<EnumEntry>
    decreases es.len(),
{
    if es.len() == 0 {
        acc
    } else {
        let a = add_new(acc, es.drop_last());
        if entry_names(a).contains(es.last().0) {
            a
        } else {
            a.push(es.last())
        }
    }
}

/// The string enums of the columns, in column order.
pub open spec fn column_enums(cols: Seq<ColumnDef>) -> Seq<EnumEntry>
    decreases cols.len(),
{
    if cols.len() == 0 {
        Seq::empty()
    } else {
        column_enums(cols.drop_last()) + match string_enum_of(cols.last()) {
            Some(e) => seq![e],
            None => Seq::empty(),
        }
    }
}

/// The string enums of a table, deduplicated by name in first-seen order.
pub open spec fn table_enums(cols: Seq<ColumnDef>) -> Seq<EnumEntry> {
    add_new(Seq::empty(), column_enums(cols))
}

/// The `pgEnum` declarations of a list of enums.
pub open spec fn enum_decls(es: Seq<EnumEntry>) -> Seq<Seq<char>> {
    es.map_values(|e: EnumEntry| enum_decl(e.0, camel(e.0), e.1))
}

/// The enum declarations and the table declaration of a single entity.
pub open spec fn entity_head(t: TableDef) -> Seq<Seq<char>> {
    enum_decls(table_enums(t.columns@)) + seq![table_block(t)]
}

/// The blocks of a single entity: its enum declarations, its table
/// declaration and, when it has relations, its relations declaration.
pub open spec fn entity_parts(t: TableDef, schema: Seq<TableDef>) -> Seq<Seq<char>> {
    entity_head(t) + match relations_block(t, schema) {
        Some(b) => seq![b],
        None => Seq::empty(),
    }
}

/// The text of a single entity without schema context: its enum
/// declarations and its table declaration, separated by blank lines.
pub open spec fn entity_alone_text(t: TableDef) -> Seq<char> {
    join(entity_head(t), "\n\n"@)
}

/// The text of a single entity: its blocks separated by blank lines.
pub open spec fn entity_text(t: TableDef, schema: Seq<TableDef>) -> Seq<char> {
    join(entity_parts(t, schema), "\n\n"@)
}

/// The string enums of the table's columns, each name once, in first-seen order.
pub fn collect_table_enums(table: &TableDef) -> (res: Vec<(&str, &EnumValues)>)
    ensures
        res@.map_values(|p: (&str, &EnumValues)| (p.0@, *p.1)) == table_enums(table.columns@),
{
    let ghost cols = table.columns@;
    let mut seen: Vec<&str> = Vec::new();
    let mut result: Vec<(&str, &EnumValues)> = Vec::new();
    let mut i: usize = 0;
    while i < table.columns.len()
        invariant
            i <= table.columns.len(),
            cols == table.columns@,
            result@.map_values(|p: (&str, &EnumValues)| (p.0@, *p.1)) == add_new(
                Seq::empty(),
                column_enums(cols.take(i as int)),
            ),
            seen@.map_values(|s: &str| s@) == entry_names(
                add_new(Seq::empty(), column_enums(cols.take(i as int))),
            ),
        decreases table.columns.len() - i,
    {
        assert(cols.take(i + 1).drop_last() =~= cols.take(i as int));
        let ghost es = column_enums(cols.take(i as int));
        let ghost acc = add_new(Seq::empty(), es);
        match &table.columns[i].column_type {
            ColumnType::Complex(ComplexColumnType::Enum { name, values }) => {
                match values {
                    EnumValues::String(_) => {
                        let ghost e = (name@, *values);
                        assert(column_enums(cols.take(i + 1)) =~= es.push(e));
                        assert(es.push(e).drop_last() =~= es);
                        let mut present = false;
                        let mut k: usize = 0;
                        while k < seen.len()
                            invariant
                                k <= seen.len(),
                                present == exists|m: int| 0 <= m < k && seen@[m]@ == name@,
                            decreases seen.len() - k,
                        {
                            if str_eq(seen[k], name.as_str()) {
                                present = true;
                            }
                            k = k + 1;
                        }
                        assert(present == seen@.map_values(|s: &str| s@).contains(name@)) by {
                            if present {
                                let m = choose|m: int| 0 <= m < seen.len() && seen@[m]@ == name@;
                                assert(seen@.map_values(|s: &str| s@)[m] == name@);
                            }
                        }
                        if !present {
                            let ghost r0 = result@.map_values(|p: (&str, &EnumValues)| (p.0@, *p.1));
                            let ghost s0 = seen@.map_values(|s: &str| s@);
                            seen.push(name.as_str());
                            result.push((name.as_str(), values));
                            assert(result@.map_values(|p: (&str, &EnumValues)| (p.0@, *p.1)) =~= r0.push(e));
                            assert(seen@.map_values(|s: &str| s@) =~= s0.push(name@));
                            assert(entry_names(acc.push(e)) =~= entry_names(acc).push(name@));
                        }
                    },
                    _ => {
                        assert(column_enums(cols.take(i + 1)) =~= es);
                    },
                }
            },
            _ => {
                assert(column_enums(cols.take(i + 1)) =~= es);
            },
        }
        i = i + 1;
    }
    assert(cols.take(cols.len() as int) =~= cols);
    result
}

fn push_part(parts: &mut Vec<String>, l: String)
    ensures
        views(final(parts)@) == views(old(parts)@).push(l@),
{
    let ghost prev = views(parts@);
    let ghost lv = l@;
    parts.push(l);
    assert(views(parts@) =~= prev.push(lv));
}

/// The enum declaration blocks and the table block of an entity.
fn entity_head_parts(table: &TableDef) -> (res: Vec<String>)
    ensures
        views(res@) == entity_head(*table),
{
    let enums = collect_table_enums(table);
    let ghost ev = enums@.map_values(|p: (&str, &EnumValues)| (p.0@, *p.1));
    let mut parts: Vec<String> = Vec::new();
    let mut i: usize = 0;
    while i < enums.len()
        invariant
            i <= enums.len(),
            ev == enums@.map_values(|p: (&str, &EnumValues)| (p.0@, *p.1)),
            views(parts@) == enum_decls(ev.take(i as int)),
        decreases enums.len() - i,
    {
        let (name, values) = enums[i];
        let const_name = to_camel_case(name);
        push_part(&mut parts, render_enum_decl(name, const_name.as_str(), values));
        assert(views(parts@) =~= enum_decls(ev.take(i + 1)));
        i = i + 1;
    }
    assert(ev.take(ev.len() as int) =~= ev);
    let empty: Vec<TableDef> = Vec::new();
    push_part(&mut parts, render_table(table, empty.as_slice()));
    assert(views(parts@) =~= entity_head(*table));
    parts
}

/// Renders enum blocks + table block + relations with full schema context.
pub fn render_entity_with_schema(table: &TableDef, schema: &[TableDef]) -> (res: String)
    ensures
        res@ == entity_text(*table, schema@),
{
    let mut parts = entity_head_parts(table);
    match render_relations_block(table, schema) {
        Some(b) => push_part(&mut parts, b),
        None => {},
    }
    assert(views(parts@) =~= entity_parts(*table, schema@));
    join_strings(&parts, "\n\n")
}

/// Renders enum blocks + table block without schema context (no relations).
pub fn render_entity(table: &TableDef) -> (res: String)
    ensures
        res@ == entity_alone_text(*table),
{
    let parts = entity_head_parts(table);
    join_strings(&parts, "\n\n")
}

/// The text of every entity of the schema, rendered with the whole schema,
/// separated by blank lines.
pub open spec fn export_text(schema: Seq<TableDef>) -> Seq<char> {
    join(schema.map_values(|t: TableDef| entity_text(t, schema)), "\n\n"@)
}

/// Multi-table entry point: renders every table (enum, table and relations
/// blocks) with full schema context and joins them.
pub fn export(schema: &[TableDef]) -> (res: Result<String, String>)
    ensures
        res matches Ok(s) && s@ == export_text(schema@),
{
    let mut parts: Vec<String> = Vec::new();
    let mut i: usize = 0;
    while i < schema.len()
        invariant
            i <= schema.len(),
            views(parts@) == schema@.take(i as int).map_values(
                |t: TableDef| entity_text(t, schema@),
            ),
        decreases schema.len() - i,
    {
        push_part(&mut parts, render_entity_with_schema(&schema[i], schema));
        assert(views(parts@) =~= schema@.take(i + 1).map_values(
            |t: TableDef| entity_text(t, schema@),
        ));
        i = i + 1;
    }
    assert(schema@.take(schema.len() as int) =~= schema@);
    Ok(join_strings(&parts, "\n\n"))
}

/// snake_case to PascalCase, exposed for cross-backend tests.
pub fn to_pascal_case_for_tests(s: &str) -> (res: String)
    ensures
        res@ == pascal(s@),
{
    to_pascal_case(s)
}

/// The Drizzle exporter for single entities.
pub struct DrizzleExporter;

impl DrizzleExporter {
    /// Renders one table without schema context (no relations); never fails.
    pub fn render_entity(&self, table: &TableDef) -> (res: Result<String, String>)
        ensures
            res matches Ok(s) && s@ == entity_alone_text(*table),
    {
        Ok(render_entity(table))
    }

    /// Renders one table with the whole schema as context; never fails.
    pub fn render_entity_with_schema(&self, table: &TableDef, schema: &[TableDef]) -> (res: Result<String, String>)
        ensures
            res matches Ok(s) && s@ == entity_text(*table, schema@),
    {
        Ok(render_entity_with_schema(table, schema))
    }
}


// ─── Whole schema ───────────────────────────────────────────────────────────

/// The enums of all tables, each name once, in first-seen order.
pub open spec fn schema_enums(tables: Seq<TableDef>) -> Seq<EnumEntry>
    decreases tables.len(),
{
    if tables.len() == 0 {
        Seq::empty()
    } else {
        add_new(schema_enums(tables.drop_last()), table_enums(tables.last().columns@))
    }
}

/// The camelCase constant names of the declared enums.
pub open spec fn enum_consts(tables: Seq<TableDef>) -> Seq<Seq<char>> {
    entry_names(schema_enums(tables)).map_values(|n: Seq<char>| camel(n))
}

/// Column `c` of table `t` is built with the `pg-core` constructor `k`.
pub open spec fn column_uses(t: TableDef, c: ColumnDef, k: PgCoreType) -> bool {
    core_type_of(c.column_type, auto_inc(t.constraints@, c.name@)) == Some(k)
}

/// Some column of `t` is built with `k`.
pub open spec fn table_uses(t: TableDef, k: PgCoreType) -> bool {
    exists|ci: int| 0 <= ci < t.columns@.len() && #[trigger] column_uses(t, t.columns@[ci], k)
}

/// Some column of some table is built with `k`.
pub open spec fn schema_uses(tables: Seq<TableDef>, k: PgCoreType) -> bool {
    exists|ti: int| 0 <= ti < tables.len() && #[trigger] table_uses(tables[ti], k)
}

/// `k` is imported: some column uses it, and no declared enum constant has its name.
pub open spec fn imports_type(tables: Seq<TableDef>, k: PgCoreType) -> bool {
    schema_uses(tables, k) && !enum_consts(tables).contains(pg_name(k))
}

/// The names of the imported constructors among `ks`, in order.
pub open spec fn imported_types(tables: Seq<TableDef>, ks: Seq<PgCoreType>) -> Seq<Seq<char>>
    decreases ks.len(),
{
    if ks.len() == 0 {
        Seq::empty()
    } else {
        imported_types(tables, ks.drop_last()) + if imports_type(tables, ks.last()) {
            seq![pg_name(ks.last())]
        } else {
            Seq::empty()
        }
    }
}

/// Some column default of `t` needs the `sql` template tag.
pub open spec fn table_needs_sql(t: TableDef) -> bool {
    exists|ci: int|
        0 <= ci < t.columns@.len() && #[trigger] column_needs_sql(t.columns@[ci])
}

/// The default of `c` needs the `sql` template tag.
pub open spec fn column_needs_sql(c: ColumnDef) -> bool {
    match c.default {
        Some(d) => default_needs_sql(d@),
        None => false,
    }
}

/// `t` has a primary key constraint over several columns.
pub open spec fn has_composite_pk_spec(t: TableDef) -> bool {
    exists|j: int|
        0 <= j < t.constraints@.len() && #[trigger] multi_column(t.constraints@[j], 0)
}

/// `t` has a unique constraint over several columns.
pub open spec fn has_unique_spec(t: TableDef) -> bool {
    exists|j: int|
        0 <= j < t.constraints@.len() && #[trigger] multi_column(t.constraints@[j], 1)
}

/// `t` has an index constraint.
pub open spec fn has_index_spec(t: TableDef) -> bool {
    exists|j: int| 0 <= j < t.constraints@.len() && #[trigger] multi_column(t.constraints@[j], 2)
}

/// Constraint `c` is of the kind selected by `kind`: a primary key over
/// several columns (0), a unique constraint over several columns (1), or an
/// index (2).
pub open spec fn multi_column(c: TableConstraint, kind: int) -> bool {
    match c {
        TableConstraint::PrimaryKey { columns, .. } => kind == 0 && columns@.len() > 1,
        TableConstraint::Unique { columns, .. } => kind == 1 && columns@.len() > 1,
        TableConstraint::Index { .. } => kind == 2,
        _ => false,
    }
}

/// `t` has a single-column foreign key.
pub open spec fn has_single_fk(t: TableDef) -> bool {
    exists|j: int| 0 <= j < t.constraints@.len() && #[trigger] single_fk_col(t.constraints@[j]) is Some
}

/// Some table of `schema` has a single-column foreign key referencing `target`.
pub open spec fn has_back_relations_spec(target: Seq<char>, schema: Seq<TableDef>) -> bool {
    exists|ti: int, j: int|
        0 <= ti < schema.len() && 0 <= j < schema[ti].constraints@.len() && #[trigger] fk_to(
            schema[ti].constraints@[j],
            target,
        )
}

/// `c` is a single-column foreign key referencing `target`.
pub open spec fn fk_to(c: TableConstraint, target: Seq<char>) -> bool {
    single_fk_col(c) is Some && fk_ref_table(c) == target
}

/// `t` has a single-column foreign key, or some table of `schema` has one
/// referencing `t`.
pub open spec fn in_relations(t: TableDef, schema: Seq<TableDef>) -> bool {
    has_single_fk(t) || has_back_relations_spec(t.name@, schema)
}

/// The schema needs `relations` from `drizzle-orm`.
pub open spec fn needs_relations(tables: Seq<TableDef>) -> bool {
    exists|ti: int| 0 <= ti < tables.len() && #[trigger] in_relations(tables[ti], tables)
}

/// The schema needs `sql` from `drizzle-orm`.
pub open spec fn needs_sql(tables: Seq<TableDef>) -> bool {
    exists|ti: int| 0 <= ti < tables.len() && #[trigger] table_needs_sql(tables[ti])
}

/// `[s]` when `b`, else nothing.
pub open spec fn when(b: bool, s: Seq<char>) -> Seq<Seq<char>> {
    if b {
        seq![s]
    } else {
        Seq::empty()
    }
}

/// Some table satisfies the table predicate selected by `kind` (see `multi_column`).
pub open spec fn any_table(tables: Seq<TableDef>, kind: int) -> bool {
    exists|ti: int, j: int|
        0 <= ti < tables.len() && 0 <= j < tables[ti].constraints@.len() && #[trigger] multi_column(
            tables[ti].constraints@[j],
            kind,
        )
}

/// The `drizzle-orm/pg-core` imports: `pgTable`, `pgEnum`, `primaryKey`,
/// `unique`, `index` (each when needed), then the column constructors in
/// alphabetical order.
pub open spec fn pg_core_symbols(tables: Seq<TableDef>) -> Seq<Seq<char>> {
    seq!["pgTable"@] + when(schema_enums(tables).len() > 0, "pgEnum"@) + when(
        any_table(tables, 0),
        "primaryKey"@,
    ) + when(any_table(tables, 1), "unique"@) + when(any_table(tables, 2), "index"@)
        + imported_types(tables, all_pg_core_types())
}

/// The `drizzle-orm` imports.
pub open spec fn drizzle_symbols(tables: Seq<TableDef>) -> Seq<Seq<char>> {
    when(needs_relations(tables), "relations"@) + when(needs_sql(tables), "sql"@)
}

/// The import lines of a schema file.
pub open spec fn import_lines(tables: Seq<TableDef>) -> Seq<Seq<char>> {
    seq![
        "import { "@ + join(pg_core_symbols(tables), ", "@)
            + " } from \"drizzle-orm/pg-core\";"@,
    ] + if drizzle_symbols(tables).len() > 0 {
        seq!["import { "@ + join(drizzle_symbols(tables), ", "@) + " } from \"drizzle-orm\";"@]
    } else {
        Seq::empty()
    }
}

/// The relations declarations of the tables that have relations, in order.
pub open spec fn relation_blocks(tables: Seq<TableDef>, schema: Seq<TableDef>) -> Seq<Seq<char>>
    decreases tables.len(),
{
    if tables.len() == 0 {
        Seq::empty()
    } else {
        relation_blocks(tables.drop_last(), schema) + match relations_block(tables.last(), schema) {
            Some(b) => seq![b],
            None => Seq::empty(),
        }
    }
}

/// The blocks of a schema file: imports, enum declarations, table
/// declarations, relations declarations.
pub open spec fn schema_parts(tables: Seq<TableDef>) -> Seq<Seq<char>> {
    import_lines(tables) + enum_decls(schema_enums(tables)) + tables.map_values(
        |t: TableDef| table_block(t),
    ) + relation_blocks(tables, tables)
}

/// A complete `schema.ts` file: the blocks separated by blank lines, with a
/// final newline.
pub open spec fn schema_text(tables: Seq<TableDef>) -> Seq<char> {
    join(schema_parts(tables), "\n\n"@) + "\n"@
}


// ─── Facts about the enum lists ─────────────────────────────────────────────

proof fn lemma_add_new_keeps(acc: Seq<EnumEntry>, es: Seq<EnumEntry>, n: Seq<char>)
    requires
        entry_names(acc).contains(n),
    ensures
        entry_names(add_new(acc, es)).contains(n),
    decreases es.len(),
{
    if es.len() > 0 {
        lemma_add_new_keeps(acc, es.drop_last(), n);
        let a = add_new(acc, es.drop_last());
        if !entry_names(a).contains(es.last().0) {
            let k = choose|k: int| 0 <= k < entry_names(a).len() && entry_names(a)[k] == n;
            assert(entry_names(a.push(es.last()))[k] == n);
        }
    }
}

proof fn lemma_add_new_adds(acc: Seq<EnumEntry>, es: Seq<EnumEntry>, i: int)
    requires
        0 <= i < es.len(),
    ensures
        entry_names(add_new(acc, es)).contains(es[i].0),
    decreases es.len(),
{
    let a = add_new(acc, es.drop_last());
    if i == es.len() - 1 {
        if !entry_names(a).contains(es.last().0) {
            assert(entry_names(a.push(es.last()))[a.len() as int] == es[i].0);
        }
    } else {
        lemma_add_new_adds(acc, es.drop_last(), i);
        assert(es.drop_last()[i] == es[i]);
        if !entry_names(a).contains(es.last().0) {
            let k = choose|k: int| 0 <= k < entry_names(a).len() && entry_names(a)[k] == es[i].0;
            assert(entry_names(a.push(es.last()))[k] == es[i].0);
        }
    }
}

proof fn lemma_add_new_distinct(acc: Seq<EnumEntry>, es: Seq<EnumEntry>)
    requires
        entry_names(acc).no_duplicates(),
    ensures
        entry_names(add_new(acc, es)).no_duplicates(),
    decreases es.len(),
{
    if es.len() > 0 {
        lemma_add_new_distinct(acc, es.drop_last());
        let a = add_new(acc, es.drop_last());
        if !entry_names(a).contains(es.last().0) {
            assert(entry_names(a.push(es.last())) =~= entry_names(a).push(es.last().0));
        }
    }
}

proof fn lemma_column_enums_has(cols: Seq<ColumnDef>, ci: int)
    requires
        0 <= ci < cols.len(),
        string_enum_of(cols[ci]) is Some,
    ensures
        column_enums(cols).contains(string_enum_of(cols[ci]).unwrap()),
    decreases cols.len(),
{
    let e = string_enum_of(cols[ci]).unwrap();
    let prev = column_enums(cols.drop_last());
    if ci == cols.len() - 1 {
        assert(column_enums(cols)[prev.len() as int] == e);
    } else {
        lemma_column_enums_has(cols.drop_last(), ci);
        assert(cols.drop_last()[ci] == cols[ci]);
        let k = choose|k: int| 0 <= k < prev.len() && prev[k] == e;
        assert(column_enums(cols)[k] == e);
    }
}

proof fn lemma_schema_enums_has(tables: Seq<TableDef>, ti: int, ci: int)
    requires
        0 <= ti < tables.len(),
        0 <= ci < tables[ti].columns@.len(),
        string_enum_of(tables[ti].columns@[ci]) is Some,
    ensures
        entry_names(schema_enums(tables)).contains(
            string_enum_of(tables[ti].columns@[ci]).unwrap().0,
        ),
    decreases tables.len(),
{
    let n = string_enum_of(tables[ti].columns@[ci]).unwrap().0;
    let prev = schema_enums(tables.drop_last());
    if ti == tables.len() - 1 {
        let cols = tables[ti].columns@;
        lemma_column_enums_has(cols, ci);
        let es = column_enums(cols);
        let k = choose|k: int| 0 <= k < es.len() && es[k] == string_enum_of(cols[ci]).unwrap();
        lemma_add_new_adds(Seq::empty(), es, k);
        let te = table_enums(cols);
        let m = choose|m: int| 0 <= m < entry_names(te).len() && entry_names(te)[m] == n;
        lemma_add_new_adds(prev, te, m);
    } else {
        lemma_schema_enums_has(tables.drop_last(), ti, ci);
        assert(tables.drop_last()[ti] == tables[ti]);
        lemma_add_new_keeps(prev, table_enums(tables.last().columns@), n);
    }
}

proof fn lemma_schema_enums_distinct(tables: Seq<TableDef>)
    ensures
        entry_names(schema_enums(tables)).no_duplicates(),
    decreases tables.len(),
{
    if tables.len() == 0 {
        assert(entry_names(schema_enums(tables)) =~= Seq::<Seq<char>>::empty());
    } else {
        lemma_schema_enums_distinct(tables.drop_last());
        lemma_add_new_distinct(schema_enums(tables.drop_last()), table_enums(tables.last().columns@));
    }
}

/// Every string enum used by a column of the schema is declared exactly once:
/// the declared enum names are distinct, and each string enum column's name
/// is among them.
pub proof fn lemma_enums_declared_once(tables: Seq<TableDef>, ti: int, ci: int)
    requires
        0 <= ti < tables.len(),
        0 <= ci < tables[ti].columns@.len(),
        string_enum_of(tables[ti].columns@[ci]) is Some,
    ensures
        entry_names(schema_enums(tables)).no_duplicates(),
        entry_names(schema_enums(tables)).contains(
            string_enum_of(tables[ti].columns@[ci]).unwrap().0,
        ),
{
    lemma_schema_enums_distinct(tables);
    lemma_schema_enums_has(tables, ti, ci);
}

/// A string enum column's constructor is one of the declared `pgEnum`
/// constants, so it is never collected as a `pg-core` import.
pub proof fn lemma_string_enum_constructor_declared(tables: Seq<TableDef>, ti: int, ci: int)
    requires
        0 <= ti < tables.len(),
        0 <= ci < tables[ti].columns@.len(),
        string_enum_of(tables[ti].columns@[ci]) is Some,
    ensures
        enum_consts(tables).contains(camel(string_enum_of(tables[ti].columns@[ci]).unwrap().0)),
{
    lemma_schema_enums_has(tables, ti, ci);
    let names = entry_names(schema_enums(tables));
    let n = string_enum_of(tables[ti].columns@[ci]).unwrap().0;
    let k = choose|k: int| 0 <= k < names.len() && names[k] == n;
    assert(enum_consts(tables)[k] == camel(n));
}


// ─── Import scan ────────────────────────────────────────────────────────────

fn has_constraint_kind(t: &TableDef, kind: u8) -> (res: bool)
    requires
        kind <= 2,
    ensures
        res == exists|j: int|
            0 <= j < t.constraints@.len() && #[trigger] multi_column(t.constraints@[j], kind as int),
{
    let mut j: usize = 0;
    while j < t.constraints.len()
        invariant
            j <= t.constraints.len(),
            kind <= 2,
            forall|i: int| 0 <= i < j ==> !multi_column(t.constraints@[i], kind as int),
        decreases t.constraints.len() - j,
    {
        let hit = match &t.constraints[j] {
            TableConstraint::PrimaryKey { columns, .. } => kind == 0 && columns.len() > 1,
            TableConstraint::Unique { columns, .. } => kind == 1 && columns.len() > 1,
            TableConstraint::Index { .. } => kind == 2,
            _ => false,
        };
        if hit {
            assert(multi_column(t.constraints@[j as int], kind as int));
            return true;
        }
        j = j + 1;
    }
    false
}

/// Whether the table has a primary key over several columns.
pub fn has_composite_pk(t: &TableDef) -> (res: bool)
    ensures
        res == has_composite_pk_spec(*t),
{
    has_constraint_kind(t, 0)
}

/// Whether the table has a unique constraint over several columns.
pub fn has_unique_constraint(t: &TableDef) -> (res: bool)
    ensures
        res == has_unique_spec(*t),
{
    has_constraint_kind(t, 1)
}

/// Whether the table has an index constraint.
pub fn has_index_constraint(t: &TableDef) -> (res: bool)
    ensures
        res == has_index_spec(*t),
{
    has_constraint_kind(t, 2)
}

/// Whether some table of `schema` has a single-column foreign key referencing `target_table`.
pub fn has_back_relations(target_table: &str, schema: &[TableDef]) -> (res: bool)
    ensures
        res == has_back_relations_spec(target_table@, schema@),
{
    let mut ti: usize = 0;
    while ti < schema.len()
        invariant
            ti <= schema.len(),
            forall|a: int, b: int|
                0 <= a < ti && 0 <= b < schema@[a].constraints@.len() ==> !#[trigger] fk_to(
                    schema@[a].constraints@[b],
                    target_table@,
                ),
        decreases schema.len() - ti,
    {
        let cs = &schema[ti].constraints;
        let mut j: usize = 0;
        while j < cs.len()
            invariant
                j <= cs.len(),
                ti < schema.len(),
                cs@ == schema@[ti as int].constraints@,
                forall|b: int| 0 <= b < j ==> !#[trigger] fk_to(cs@[b], target_table@),
            decreases cs.len() - j,
        {
            match &cs[j] {
                TableConstraint::ForeignKey { columns, ref_table, .. } => {
                    if columns.len() == 1 && str_eq(ref_table.as_str(), target_table) {
                        assert(fk_to(schema@[ti as int].constraints@[j as int], target_table@));
                        return true;
                    }
                },
                _ => {},
            }
            j = j + 1;
        }
        ti = ti + 1;
    }
    false
}

/// All constructors, in the alphabetical order of their names.
pub fn all_kinds() -> (res: Vec<PgCoreType>)
    ensures
        res@ == all_pg_core_types(),
{
    let v = vec![
        PgCoreType::Bigint,
        PgCoreType::Bigserial,
        PgCoreType::Boolean,
        PgCoreType::Char,
        PgCoreType::Date,
        PgCoreType::DoublePrecision,
        PgCoreType::Integer,
        PgCoreType::Jsonb,
        PgCoreType::Numeric,
        PgCoreType::Real,
        PgCoreType::Serial,
        PgCoreType::Smallint,
        PgCoreType::Text,
        PgCoreType::Time,
        PgCoreType::Timestamp,
        PgCoreType::Uuid,
        PgCoreType::Varchar,
    ];
    assert(v@ =~= all_pg_core_types());
    v
}

/// The constructor name that column `c` of table `t` is collected under for
/// the import list.
pub open spec fn column_symbol(t: TableDef, c: ColumnDef) -> Seq<char> {
    col_symbol(c.column_type, auto_inc(t.constraints@, c.name@))
}

/// Some column of `t` is collected under the constructor name `s`.
pub open spec fn table_has_symbol(t: TableDef, s: Seq<char>) -> bool {
    exists|ci: int| 0 <= ci < t.columns@.len() && #[trigger] column_symbol(t, t.columns@[ci]) == s
}

proof fn lemma_push_contains(a: Seq<Seq<char>>, x: Seq<char>, s: Seq<char>)
    ensures
        a.push(x).contains(s) == (a.contains(s) || s == x),
{
    if a.push(x).contains(s) && s != x {
        let k = choose|k: int| 0 <= k < a.push(x).len() && a.push(x)[k] == s;
        assert(a[k] == s);
    }
    if a.contains(s) {
        let k = choose|k: int| 0 <= k < a.len() && a[k] == s;
        assert(a.push(x)[k] == s);
    }
    if s == x {
        assert(a.push(x)[a.len() as int] == s);
    }
}

proof fn lemma_push_distinct(a: Seq<Seq<char>>, x: Seq<char>)
    requires
        a.no_duplicates(),
        !a.contains(x),
    ensures
        a.push(x).no_duplicates(),
{
    let b = a.push(x);
    assert forall|i: int, j: int| 0 <= i < b.len() && 0 <= j < b.len() && i != j implies b[i] != b[j] by {
        if i == a.len() {
            assert(a[j] == b[j]);
        } else if j == a.len() {
            assert(a[i] == b[i]);
        } else {
            assert(a[i] == b[i] && a[j] == b[j]);
        }
    }
}

/// Scans one table for what the schema file imports: the constructor names
/// its columns are collected under (a name that is a declared enum constant
/// is left out, as the constant is declared locally), whether a default needs
/// `sql`, and whether the table takes part in relations. `used` holds each
/// name once.
fn collect_used_types(
    table: &TableDef,
    all_tables: &[TableDef],
    enum_camel_names: &Vec<String>,
    used: &mut Vec<String>,
    needs_sql: &mut bool,
    needs_relations: &mut bool,
)
    requires
        views(old(used)@).no_duplicates(),
    ensures
        views(final(used)@).no_duplicates(),
        forall|s: Seq<char>|
            #[trigger] views(final(used)@).contains(s) == (views(old(used)@).contains(s) || (
            table_has_symbol(*table, s) && !views(enum_camel_names@).contains(s))),
        *final(needs_sql) == (*old(needs_sql) || table_needs_sql(*table)),
        *final(needs_relations) == (*old(needs_relations) || has_single_fk(*table)
            || has_back_relations_spec(table.name@, all_tables@)),
{
    let ghost t = *table;
    let ghost cs = table.constraints@;
    let ghost used0 = views(used@);
    let ghost sql0 = *needs_sql;
    let ghost names = views(enum_camel_names@);
    let pk = extract_pk_info(&table.constraints);
    let mut i: usize = 0;
    while i < table.columns.len()
        invariant
            i <= table.columns.len(),
            t == *table,
            cs == table.constraints@,
            names == views(enum_camel_names@),
            views(pk.columns@) == pk_columns(cs),
            pk.auto_increment == pk_auto(cs),
            views(used@).no_duplicates(),
            forall|s: Seq<char>|
                #[trigger] views(used@).contains(s) == (used0.contains(s) || ((exists|ci: int|
                    0 <= ci < i && #[trigger] column_symbol(t, t.columns@[ci]) == s)
                    && !names.contains(s))),
            *needs_sql == (sql0 || exists|ci: int|
                0 <= ci < i && #[trigger] column_needs_sql(t.columns@[ci])),
        decreases table.columns.len() - i,
    {
        let col = &table.columns[i];
        let cd = chars_of(col.name.as_str());
        let in_pk = contains_string(&pk.columns, cd.as_slice());
        let is_single_pk = in_pk && !(pk.columns.len() > 1);
        let auto = is_single_pk && pk.auto_increment;
        assert(auto == auto_inc(cs, col.name@));
        let sym = col_type_symbol(&col.column_type, auto);
        let ghost x = sym@;
        assert(column_symbol(t, t.columns@[i as int]) == x);
        let ghost prev = views(used@);
        let sc = chars_of(sym.as_str());
        let fresh = !contains_string(enum_camel_names, sc.as_slice()) && !contains_string(
            used,
            sc.as_slice(),
        );
        if fresh {
            push_part(used, sym);
            proof {
                lemma_push_distinct(prev, x);
            }
        }
        assert forall|s: Seq<char>|
            #[trigger] views(used@).contains(s) == (used0.contains(s) || ((exists|ci: int|
                0 <= ci < i + 1 && #[trigger] column_symbol(t, t.columns@[ci]) == s)
                && !names.contains(s))) by {
            if fresh {
                lemma_push_contains(prev, x, s);
            }
            if exists|ci: int| 0 <= ci < i + 1 && #[trigger] column_symbol(t, t.columns@[ci]) == s {
                let ci = choose|ci: int| 0 <= ci < i + 1 && #[trigger] column_symbol(t, t.columns@[ci]) == s;
                if ci < i {
                    assert(exists|cj: int| 0 <= cj < i && #[trigger] column_symbol(t, t.columns@[cj]) == s);
                }
            }
            if exists|ci: int| 0 <= ci < i && #[trigger] column_symbol(t, t.columns@[ci]) == s {
                let ci = choose|ci: int| 0 <= ci < i && #[trigger] column_symbol(t, t.columns@[ci]) == s;
                assert(0 <= ci < i + 1 && column_symbol(t, t.columns@[ci]) == s);
            }
            if s == x {
                assert(0 <= i < i + 1 && column_symbol(t, t.columns@[i as int]) == s);
            }
        }
        let ghost sql_before = *needs_sql;
        match &col.default {
            Some(d) => {
                if drizzle_default_needs_sql(d.as_str()) {
                    *needs_sql = true;
                }
            },
            None => {},
        }
        assert(*needs_sql == (sql0 || exists|ci: int|
            0 <= ci < i + 1 && #[trigger] column_needs_sql(t.columns@[ci]))) by {
            if exists|ci: int| 0 <= ci < i + 1 && #[trigger] column_needs_sql(t.columns@[ci]) {
                let ci = choose|ci: int| 0 <= ci < i + 1 && #[trigger] column_needs_sql(t.columns@[ci]);
                if ci < i {
                } else {
                    assert(column_needs_sql(t.columns@[i as int]));
                }
            }
            if sql_before {
            } else if *needs_sql {
                assert(column_needs_sql(t.columns@[i as int]));
            }
        }
        i = i + 1;
    }
    let mut has_fk = false;
    let mut j: usize = 0;
    while j < table.constraints.len()
        invariant
            j <= table.constraints.len(),
            cs == table.constraints@,
            has_fk == exists|b: int| 0 <= b < j && #[trigger] single_fk_col(cs[b]) is Some,
        decreases table.constraints.len() - j,
    {
        match &table.constraints[j] {
            TableConstraint::ForeignKey { columns, .. } => {
                if columns.len() == 1 {
                    assert(single_fk_col(cs[j as int]) is Some);
                    has_fk = true;
                }
            },
            _ => {},
        }
        j = j + 1;
    }
    if has_fk || has_back_relations(table.name.as_str(), all_tables) {
        *needs_relations = true;
    }
}


// ─── Schema file ────────────────────────────────────────────────────────────

/// Drizzle exporter with configuration support: assembles a complete
/// `schema.ts` file (for `drizzle-orm/pg-core`) from a full table list. The
/// configuration is held for the caller; the rendering does not read it.
pub struct DrizzleExporterWithConfig<'a, C> {
    pub config: &'a C,
}

fn append_parts(dst: &mut Vec<String>, src: Vec<String>)
    ensures
        views(final(dst)@) == views(old(dst)@) + views(src@),
{
    let mut src = src;
    let ghost a = dst@;
    let ghost b = src@;
    dst.append(&mut src);
    assert(views(dst@) =~= views(a) + views(b));
}

fn push_joined_import(parts: &mut Vec<String>, symbols: &Vec<String>, tail: &str)
    ensures
        views(final(parts)@) == views(old(parts)@).push(
            "import { "@ + join(views(symbols@), ", "@) + tail@,
        ),
{
    let mut l = String::from_str("import { ");
    let j = join_strings(symbols, ", ");
    push_str(&mut l, j.as_str());
    push_str(&mut l, tail);
    push_part(parts, l);
}

impl<'a, C> DrizzleExporterWithConfig<'a, C> {
    /// An exporter holding `config`.
    pub fn new(config: &'a C) -> (res: Self)
        ensures
            res.config == config,
    {
        DrizzleExporterWithConfig { config }
    }

    /// Renders a complete `schema.ts` file for all tables. Output order:
    /// imports, enum declarations, table declarations, relations declarations.
    pub fn render_schema(&self, tables: &[TableDef]) -> (res: String)
        ensures
            res@ == schema_text(tables@),
    {
        let ghost ts = tables@;
        // Enums, globally deduplicated in first-seen order.
        let mut seen: Vec<String> = Vec::new();
        let mut enum_blocks: Vec<String> = Vec::new();
        let mut i: usize = 0;
        while i < tables.len()
            invariant
                i <= tables.len(),
                ts == tables@,
                views(seen@) == entry_names(schema_enums(ts.take(i as int))),
                views(enum_blocks@) == enum_decls(schema_enums(ts.take(i as int))),
            decreases tables.len() - i,
        {
            let te = collect_table_enums(&tables[i]);
            let ghost tev = te@.map_values(|p: (&str, &EnumValues)| (p.0@, *p.1));
            let ghost base = schema_enums(ts.take(i as int));
            let mut k: usize = 0;
            while k < te.len()
                invariant
                    k <= te.len(),
                    tev == te@.map_values(|p: (&str, &EnumValues)| (p.0@, *p.1)),
                    views(seen@) == entry_names(add_new(base, tev.take(k as int))),
                    views(enum_blocks@) == enum_decls(add_new(base, tev.take(k as int))),
                decreases te.len() - k,
            {
                let (name, values) = te[k];
                let ghost acc = add_new(base, tev.take(k as int));
                assert(tev.take(k + 1).drop_last() =~= tev.take(k as int));
                let nc = chars_of(name);
                if !contains_string(&seen, nc.as_slice()) {
                    let const_name = to_camel_case(name);
                    push_part(&mut seen, String::from_str(name));
                    push_part(&mut enum_blocks, render_enum_decl(name, const_name.as_str(), values));
                    assert(entry_names(acc.push(tev[k as int])) =~= entry_names(acc).push(name@));
                    assert(enum_decls(acc.push(tev[k as int])) =~= enum_decls(acc).push(
                        enum_decl(name@, camel(name@), *values),
                    ));
                }
                k = k + 1;
            }
            assert(tev.take(tev.len() as int) =~= tev);
            assert(ts.take(i + 1).drop_last() =~= ts.take(i as int));
            i = i + 1;
        }
        assert(ts.take(ts.len() as int) =~= ts);
        // pgEnum constants are declared locally, not imported from pg-core.
        let mut enum_camel_names: Vec<String> = Vec::new();
        let mut i: usize = 0;
        while i < seen.len()
            invariant
                i <= seen.len(),
                views(seen@) == entry_names(schema_enums(ts)),
                views(enum_camel_names@) == views(seen@).take(i as int).map_values(
                    |n: Seq<char>| camel(n),
                ),
            decreases seen.len() - i,
        {
            push_part(&mut enum_camel_names, to_camel_case(seen[i].as_str()));
            assert(views(enum_camel_names@) =~= views(seen@).take(i + 1).map_values(
                |n: Seq<char>| camel(n),
            ));
            i = i + 1;
        }
        assert(views(seen@).take(seen.len() as int) =~= views(seen@));
        assert(views(enum_camel_names@) == enum_consts(ts));
        // Constructors, sql and relations.
        let mut used: Vec<String> = Vec::new();
        let mut needs_sql = false;
        let mut needs_relations = false;
        let mut i: usize = 0;
        while i < tables.len()
            invariant
                i <= tables.len(),
                ts == tables@,
                views(enum_camel_names@) == enum_consts(ts),
                views(used@).no_duplicates(),
                forall|s: Seq<char>|
                    #[trigger] views(used@).contains(s) == ((exists|ti: int|
                        0 <= ti < i && #[trigger] table_has_symbol(ts[ti], s))
                        && !enum_consts(ts).contains(s)),
                needs_sql == exists|ti: int| 0 <= ti < i && #[trigger] table_needs_sql(ts[ti]),
                needs_relations == exists|ti: int|
                    0 <= ti < i && #[trigger] in_relations(ts[ti], ts),
            decreases tables.len() - i,
        {
            let ghost used_before = views(used@);
            let ghost sql_before = needs_sql;
            let ghost rel_before = needs_relations;
            collect_used_types(
                &tables[i],
                tables,
                &enum_camel_names,
                &mut used,
                &mut needs_sql,
                &mut needs_relations,
            );
            assert forall|s: Seq<char>| #[trigger] views(used@).contains(s) == ((exists|ti: int|
                0 <= ti < i + 1 && #[trigger] table_has_symbol(ts[ti], s))
                && !enum_consts(ts).contains(s)) by {
                assert(views(used@).contains(s) == (used_before.contains(s) || (table_has_symbol(ts[i as int], s)
                    && !enum_consts(ts).contains(s))));
                if exists|ti: int| 0 <= ti < i + 1 && #[trigger] table_has_symbol(ts[ti], s) {
                    let ti = choose|ti: int| 0 <= ti < i + 1 && #[trigger] table_has_symbol(ts[ti], s);
                    if ti < i {
                    }
                }
            }
            assert(needs_sql == exists|ti: int| 0 <= ti < i + 1 && #[trigger] table_needs_sql(ts[ti])) by {
                if exists|ti: int| 0 <= ti < i + 1 && #[trigger] table_needs_sql(ts[ti]) {
                    let ti = choose|ti: int| 0 <= ti < i + 1 && #[trigger] table_needs_sql(ts[ti]);
                    if ti < i {
                    }
                }
            }
            assert(needs_relations == exists|ti: int| 0 <= ti < i + 1 && #[trigger] in_relations(ts[ti], ts)) by {
                if !rel_before && needs_relations {
                    assert(in_relations(ts[i as int], ts));
                }
                if exists|ti: int| 0 <= ti < i + 1 && #[trigger] in_relations(ts[ti], ts) {
                    let ti = choose|ti: int| 0 <= ti < i + 1 && #[trigger] in_relations(ts[ti], ts);
                    if ti < i {
                    }
                }
            }
            i = i + 1;
        }
        // Table-level helpers.
        let mut any_pk = false;
        let mut any_unique = false;
        let mut any_index = false;
        let mut i: usize = 0;
        while i < tables.len()
            invariant
                i <= tables.len(),
                ts == tables@,
                any_pk == exists|ti: int, j: int|
                    0 <= ti < i && 0 <= j < ts[ti].constraints@.len() && #[trigger] multi_column(
                        ts[ti].constraints@[j],
                        0,
                    ),
                any_unique == exists|ti: int, j: int|
                    0 <= ti < i && 0 <= j < ts[ti].constraints@.len() && #[trigger] multi_column(
                        ts[ti].constraints@[j],
                        1,
                    ),
                any_index == exists|ti: int, j: int|
                    0 <= ti < i && 0 <= j < ts[ti].constraints@.len() && #[trigger] multi_column(
                        ts[ti].constraints@[j],
                        2,
                    ),
            decreases tables.len() - i,
        {
            let p = has_composite_pk(&tables[i]);
            let u = has_unique_constraint(&tables[i]);
            let x = has_index_constraint(&tables[i]);
            proof {
                if p {
                    let j = choose|j: int| 0 <= j < ts[i as int].constraints@.len() && #[trigger] multi_column(ts[i as int].constraints@[j], 0);
                    assert(multi_column(ts[i as int].constraints@[j], 0));
                }
                if u {
                    let j = choose|j: int| 0 <= j < ts[i as int].constraints@.len() && #[trigger] multi_column(ts[i as int].constraints@[j], 1);
                    assert(multi_column(ts[i as int].constraints@[j], 1));
                }
                if x {
                    let j = choose|j: int| 0 <= j < ts[i as int].constraints@.len() && #[trigger] multi_column(ts[i as int].constraints@[j], 2);
                    assert(multi_column(ts[i as int].constraints@[j], 2));
                }
            }
            any_pk = any_pk || p;
            any_unique = any_unique || u;
            any_index = any_index || x;
            i = i + 1;
        }
        // pg-core imports.
        let mut pg_core_symbols: Vec<String> = Vec::new();
        push_part(&mut pg_core_symbols, String::from_str("pgTable"));
        if enum_blocks.len() > 0 {
            push_part(&mut pg_core_symbols, String::from_str("pgEnum"));
        }
        if any_pk {
            push_part(&mut pg_core_symbols, String::from_str("primaryKey"));
        }
        if any_unique {
            push_part(&mut pg_core_symbols, String::from_str("unique"));
        }
        if any_index {
            push_part(&mut pg_core_symbols, String::from_str("index"));
        }
        let ghost head = views(pg_core_symbols@);
        assert(head =~= seq!["pgTable"@] + when(schema_enums(ts).len() > 0, "pgEnum"@) + when(
            any_table(ts, 0),
            "primaryKey"@,
        ) + when(any_table(ts, 1), "unique"@) + when(any_table(ts, 2), "index"@));
        // The collected names are sorted by walking the constructors in
        // alphabetical order: every collected name is a constructor name, as
        // each string enum constant is declared and so left out.
        let kinds = all_kinds();
        let mut idx: usize = 0;
        while idx < 17
            invariant
                idx <= 17,
                kinds@ == all_pg_core_types(),
                forall|s: Seq<char>|
                    #[trigger] views(used@).contains(s) == ((exists|ti: int|
                        0 <= ti < ts.len() && #[trigger] table_has_symbol(ts[ti], s))
                        && !enum_consts(ts).contains(s)),
                views(pg_core_symbols@) == head + imported_types(
                    ts,
                    all_pg_core_types().take(idx as int),
                ),
            decreases 17 - idx,
        {
            assert(all_pg_core_types().take(idx + 1).drop_last() =~= all_pg_core_types().take(
                idx as int,
            ));
            let name = pg_core_type_name(kinds[idx]);
            let nc = chars_of(name);
            proof {
                lemma_symbol_imported_iff(ts, all_pg_core_types()[idx as int]);
            }
            if contains_string(&used, nc.as_slice()) {
                push_part(&mut pg_core_symbols, String::from_str(name));
            }
            idx = idx + 1;
        }
        assert(all_pg_core_types().take(17) =~= all_pg_core_types());
        let mut parts: Vec<String> = Vec::new();
        push_joined_import(&mut parts, &pg_core_symbols, " } from \"drizzle-orm/pg-core\";");
        // drizzle-orm imports.
        let mut orm_symbols: Vec<String> = Vec::new();
        if needs_relations {
            push_part(&mut orm_symbols, String::from_str("relations"));
        }
        if needs_sql {
            push_part(&mut orm_symbols, String::from_str("sql"));
        }
        assert(views(orm_symbols@) =~= drizzle_symbols(ts));
        if orm_symbols.len() > 0 {
            push_joined_import(&mut parts, &orm_symbols, " } from \"drizzle-orm\";");
        }
        assert(views(parts@) =~= import_lines(ts));
        append_parts(&mut parts, enum_blocks);
        let ghost before_tables = views(parts@);
        let mut i: usize = 0;
        while i < tables.len()
            invariant
                i <= tables.len(),
                ts == tables@,
                views(parts@) == before_tables + ts.take(i as int).map_values(
                    |t: TableDef| table_block(t),
                ),
            decreases tables.len() - i,
        {
            push_part(&mut parts, render_table(&tables[i], tables));
            assert(views(parts@) =~= before_tables + ts.take(i + 1).map_values(
                |t: TableDef| table_block(t),
            ));
            i = i + 1;
        }
        let ghost before_rel = views(parts@);
        let mut i: usize = 0;
        while i < tables.len()
            invariant
                i <= tables.len(),
                ts == tables@,
                views(parts@) == before_rel + relation_blocks(ts.take(i as int), ts),
            decreases tables.len() - i,
        {
            assert(ts.take(i + 1).drop_last() =~= ts.take(i as int));
            match render_relations_block(&tables[i], tables) {
                Some(block) => push_part(&mut parts, block),
                None => {},
            }
            assert(views(parts@) =~= before_rel + relation_blocks(ts.take(i + 1), ts));
            i = i + 1;
        }
        assert(views(parts@) =~= schema_parts(ts));
        let mut out = join_strings(&parts, "\n\n");
        push_str(&mut out, "\n");
        out
    }
}


/// A constructor's name is collected from some table (and is no enum
/// constant) exactly when the constructor is imported.
proof fn lemma_symbol_imported_iff(ts: Seq<TableDef>, k: PgCoreType)
    ensures
        ((exists|ti: int| 0 <= ti < ts.len() && #[trigger] table_has_symbol(ts[ti], pg_name(k)))
            && !enum_consts(ts).contains(pg_name(k))) == imports_type(ts, k),
{
    if imports_type(ts, k) {
        let ti = choose|ti: int| 0 <= ti < ts.len() && #[trigger] table_uses(ts[ti], k);
        let ci = choose|ci: int|
            0 <= ci < ts[ti].columns@.len() && #[trigger] column_uses(ts[ti], ts[ti].columns@[ci], k);
        assert(column_symbol(ts[ti], ts[ti].columns@[ci]) == pg_name(k));
        assert(table_has_symbol(ts[ti], pg_name(k)));
    }
    if (exists|ti: int| 0 <= ti < ts.len() && #[trigger] table_has_symbol(ts[ti], pg_name(k)))
        && !enum_consts(ts).contains(pg_name(k)) {
        let ti = choose|ti: int| 0 <= ti < ts.len() && #[trigger] table_has_symbol(ts[ti], pg_name(k));
        let ci = choose|ci: int|
            0 <= ci < ts[ti].columns@.len() && #[trigger] column_symbol(ts[ti], ts[ti].columns@[ci])
                == pg_name(k);
        let c = ts[ti].columns@[ci];
        let ai = auto_inc(ts[ti].constraints@, c.name@);
        match core_type_of(c.column_type, ai) {
            Some(k2) => {
                lemma_pg_name_injective(k2, k);
                assert(column_uses(ts[ti], c, k));
                assert(table_uses(ts[ti], k));
            },
            None => {
                assert(string_enum_of(c) is Some);
                lemma_string_enum_constructor_declared(ts, ti, ci);
                assert(false);
            },
        }
    }
}


// ─── What the tables use is imported ────────────────────────────────────────

proof fn lemma_forward_lines_have_fk(t: TableDef, cols: Seq<ColumnDef>)
    requires
        forward_lines(t, cols).len() > 0,
    ensures
        has_single_fk(t),
    decreases cols.len(),
{
    let cs = t.constraints@;
    match last_fk_on(cs, cols.last().name@) {
        Some(j) => {
            lemma_last_fk_on(cs, cols.last().name@);
            assert(single_fk_col(cs[j]) is Some);
        },
        None => {
            lemma_forward_lines_have_fk(t, cols.drop_last());
        },
    }
}

proof fn lemma_fk_cols_to_has_fk(cs: Seq<TableConstraint>, target: Seq<char>)
    requires
        fk_cols_to(cs, target).len() > 0,
    ensures
        exists|j: int| 0 <= j < cs.len() && #[trigger] fk_to(cs[j], target),
    decreases cs.len(),
{
    let prev = fk_cols_to(cs.drop_last(), target);
    if prev.len() > 0 {
        lemma_fk_cols_to_has_fk(cs.drop_last(), target);
        let j = choose|j: int| 0 <= j < cs.drop_last().len() && #[trigger] fk_to(cs.drop_last()[j], target);
        assert(cs[j] == cs.drop_last()[j]);
        assert(fk_to(cs[j], target));
    } else {
        assert(fk_to(cs[cs.len() - 1], target));
    }
}

proof fn lemma_back_rels_have_fk(schema: Seq<TableDef>, target: Seq<char>)
    requires
        back_rels(schema, target).len() > 0,
    ensures
        has_back_relations_spec(target, schema),
    decreases schema.len(),
{
    let prev = back_rels(schema.drop_last(), target);
    if prev.len() > 0 {
        lemma_back_rels_have_fk(schema.drop_last(), target);
        let (ti, j) = choose|ti: int, j: int|
            0 <= ti < schema.drop_last().len() && 0 <= j < schema.drop_last()[ti].constraints@.len()
                && #[trigger] fk_to(schema.drop_last()[ti].constraints@[j], target);
        assert(schema[ti] == schema.drop_last()[ti]);
        assert(fk_to(schema[ti].constraints@[j], target));
    } else {
        let last = schema.len() - 1;
        lemma_fk_cols_to_has_fk(schema[last].constraints@, target);
        let j = choose|j: int|
            0 <= j < schema[last].constraints@.len() && #[trigger] fk_to(
                schema[last].constraints@[j],
                target,
            );
        assert(fk_to(schema[last].constraints@[j], target));
    }
}

/// Whenever the schema file declares relations for a table, it imports
/// `relations` from `drizzle-orm`.
pub proof fn lemma_relations_block_imported(tables: Seq<TableDef>, ti: int)
    requires
        0 <= ti < tables.len(),
        relations_block(tables[ti], tables) is Some,
    ensures
        drizzle_symbols(tables).contains("relations"@),
{
    let t = tables[ti];
    if forward_lines(t, t.columns@).len() > 0 {
        lemma_forward_lines_have_fk(t, t.columns@);
    } else {
        assert(block_back_rels(t, tables).len() > 0);
        lemma_back_rels_have_fk(tables, t.name@);
    }
    assert(in_relations(tables[ti], tables));
    assert(drizzle_symbols(tables)[0] == "relations"@);
}

/// Whenever a column default is rendered through a `sql` template, the schema
/// file imports `sql` from `drizzle-orm`.
pub proof fn lemma_sql_default_imported(tables: Seq<TableDef>, ti: int, ci: int)
    requires
        0 <= ti < tables.len(),
        0 <= ci < tables[ti].columns@.len(),
        tables[ti].columns@[ci].default is Some,
        starts_with(
            default_chain(
                tables[ti].columns@[ci].default.unwrap()@,
                tables[ti].columns@[ci].column_type,
            ),
            ".default(sql`"@,
        ),
    ensures
        drizzle_symbols(tables).contains("sql"@),
{
    let c = tables[ti].columns@[ci];
    lemma_sql_template_matches_needs_sql(c.default.unwrap()@, c.column_type);
    assert(column_needs_sql(tables[ti].columns@[ci]));
    assert(table_needs_sql(tables[ti]));
    let ds = drizzle_symbols(tables);
    assert(ds[ds.len() - 1] == "sql"@);
}

proof fn lemma_imported_types_has(tables: Seq<TableDef>, ks: Seq<PgCoreType>, i: int)
    requires
        0 <= i < ks.len(),
        imports_type(tables, ks[i]),
    ensures
        imported_types(tables, ks).contains(pg_name(ks[i])),
    decreases ks.len(),
{
    let prev = imported_types(tables, ks.drop_last());
    if i == ks.len() - 1 {
        assert(imported_types(tables, ks)[prev.len() as int] == pg_name(ks[i]));
    } else {
        lemma_imported_types_has(tables, ks.drop_last(), i);
        assert(ks.drop_last()[i] == ks[i]);
        let k = choose|k: int| 0 <= k < prev.len() && prev[k] == pg_name(ks[i]);
        assert(imported_types(tables, ks)[k] == pg_name(ks[i]));
    }
}

proof fn lemma_contains_suffix(a: Seq<Seq<char>>, b: Seq<Seq<char>>, x: Seq<char>)
    requires
        b.contains(x),
    ensures
        (a + b).contains(x),
{
    let k = choose|k: int| 0 <= k < b.len() && b[k] == x;
    assert((a + b)[a.len() + k] == x);
}

proof fn lemma_contains_prefix(a: Seq<Seq<char>>, b: Seq<Seq<char>>, x: Seq<char>)
    requires
        a.contains(x),
    ensures
        (a + b).contains(x),
{
    let k = choose|k: int| 0 <= k < a.len() && a[k] == x;
    assert((a + b)[k] == x);
}

/// Every `pg-core` column constructor that a column is built with is
/// imported, unless a declared enum constant has the same name (the local
/// constant is used then).
pub proof fn lemma_column_constructor_imported(tables: Seq<TableDef>, ti: int, ci: int, k: PgCoreType)
    requires
        0 <= ti < tables.len(),
        0 <= ci < tables[ti].columns@.len(),
        core_type_of(
            tables[ti].columns@[ci].column_type,
            auto_inc(tables[ti].constraints@, tables[ti].columns@[ci].name@),
        ) == Some(k),
        !enum_consts(tables).contains(pg_name(k)),
    ensures
        pg_core_symbols(tables).contains(pg_name(k)),
{
    assert(column_uses(tables[ti], tables[ti].columns@[ci], k));
    assert(table_uses(tables[ti], k));
    assert(schema_uses(tables, k));
    lemma_every_type_listed(k);
    let i = choose|i: int| 0 <= i < 17 && all_pg_core_types()[i] == k;
    lemma_imported_types_has(tables, all_pg_core_types(), i);
    let head = seq!["pgTable"@] + when(schema_enums(tables).len() > 0, "pgEnum"@) + when(
        any_table(tables, 0),
        "primaryKey"@,
    ) + when(any_table(tables, 1), "unique"@) + when(any_table(tables, 2), "index"@);
    lemma_contains_suffix(head, imported_types(tables, all_pg_core_types()), pg_name(k));
}

proof fn lemma_first_pk_is_pk(cs: Seq<TableConstraint>)
    ensures
        first_pk(cs) matches Some(j) ==> 0 <= j < cs.len() && cs[j] is PrimaryKey,
    decreases cs.len(),
{
    if cs.len() > 0 && !(cs[0] is PrimaryKey) {
        lemma_first_pk_is_pk(cs.drop_first());
        match first_pk(cs.drop_first()) {
            Some(j) => assert(cs[j + 1] == cs.drop_first()[j]),
            None => {},
        }
    }
}

proof fn lemma_unique_lines_have_unique(cs: Seq<TableConstraint>)
    requires
        unique_lines(cs).len() > 0,
    ensures
        exists|j: int| 0 <= j < cs.len() && #[trigger] multi_column(cs[j], 1),
    decreases cs.len(),
{
    if unique_lines(cs.drop_last()).len() > 0 {
        lemma_unique_lines_have_unique(cs.drop_last());
        let j = choose|j: int| 0 <= j < cs.drop_last().len() && #[trigger] multi_column(cs.drop_last()[j], 1);
        assert(cs[j] == cs.drop_last()[j]);
        assert(multi_column(cs[j], 1));
    } else {
        assert(multi_column(cs[cs.len() - 1], 1));
    }
}

proof fn lemma_index_lines_have_index(cs: Seq<TableConstraint>)
    requires
        index_lines(cs).len() > 0,
    ensures
        exists|j: int| 0 <= j < cs.len() && #[trigger] multi_column(cs[j], 2),
    decreases cs.len(),
{
    if index_lines(cs.drop_last()).len() > 0 {
        lemma_index_lines_have_index(cs.drop_last());
        let j = choose|j: int| 0 <= j < cs.drop_last().len() && #[trigger] multi_column(cs.drop_last()[j], 2);
        assert(cs[j] == cs.drop_last()[j]);
        assert(multi_column(cs[j], 2));
    } else {
        assert(multi_column(cs[cs.len() - 1], 2));
    }
}

/// Every table-level helper that a table declaration calls is imported from
/// `pg-core`: `primaryKey` for a composite primary key, `unique` for a
/// multi-column unique constraint, `index` for an index; and `pgEnum` is
/// imported whenever an enum is declared.
pub proof fn lemma_table_helpers_imported(tables: Seq<TableDef>, ti: int)
    requires
        0 <= ti < tables.len(),
    ensures
        pk_lines(tables[ti].constraints@).len() > 0 ==> pg_core_symbols(tables).contains(
            "primaryKey"@,
        ),
        unique_lines(tables[ti].constraints@).len() > 0 ==> pg_core_symbols(tables).contains(
            "unique"@,
        ),
        index_lines(tables[ti].constraints@).len() > 0 ==> pg_core_symbols(tables).contains(
            "index"@,
        ),
        enum_decls(schema_enums(tables)).len() > 0 ==> pg_core_symbols(tables).contains(
            "pgEnum"@,
        ),
{
    let cs = tables[ti].constraints@;
    let a0 = seq!["pgTable"@];
    let a1 = when(schema_enums(tables).len() > 0, "pgEnum"@);
    let a2 = when(any_table(tables, 0), "primaryKey"@);
    let a3 = when(any_table(tables, 1), "unique"@);
    let a4 = when(any_table(tables, 2), "index"@);
    let rest = imported_types(tables, all_pg_core_types());
    assert(pg_core_symbols(tables) == a0 + a1 + a2 + a3 + a4 + rest);
    if pk_lines(cs).len() > 0 {
        lemma_first_pk_is_pk(cs);
        let j = first_pk(cs).unwrap();
        assert(multi_column(tables[ti].constraints@[j], 0));
        assert(a2[0] == "primaryKey"@);
        lemma_contains_suffix(a0 + a1, a2, "primaryKey"@);
        lemma_contains_prefix(a0 + a1 + a2, a3, "primaryKey"@);
        lemma_contains_prefix(a0 + a1 + a2 + a3, a4, "primaryKey"@);
        lemma_contains_prefix(a0 + a1 + a2 + a3 + a4, rest, "primaryKey"@);
    }
    if unique_lines(cs).len() > 0 {
        lemma_unique_lines_have_unique(cs);
        let j = choose|j: int| 0 <= j < cs.len() && #[trigger] multi_column(cs[j], 1);
        assert(multi_column(tables[ti].constraints@[j], 1));
        assert(a3[0] == "unique"@);
        lemma_contains_suffix(a0 + a1 + a2, a3, "unique"@);
        lemma_contains_prefix(a0 + a1 + a2 + a3, a4, "unique"@);
        lemma_contains_prefix(a0 + a1 + a2 + a3 + a4, rest, "unique"@);
    }
    if index_lines(cs).len() > 0 {
        lemma_index_lines_have_index(cs);
        let j = choose|j: int| 0 <= j < cs.len() && #[trigger] multi_column(cs[j], 2);
        assert(multi_column(tables[ti].constraints@[j], 2));
        assert(a4[0] == "index"@);
        lemma_contains_suffix(a0 + a1 + a2 + a3, a4, "index"@);
        lemma_contains_prefix(a0 + a1 + a2 + a3 + a4, rest, "index"@);
    }
    if enum_decls(schema_enums(tables)).len() > 0 {
        assert(a1[0] == "pgEnum"@);
        lemma_contains_suffix(a0, a1, "pgEnum"@);
        lemma_contains_prefix(a0 + a1, a2, "pgEnum"@);
        lemma_contains_prefix(a0 + a1 + a2, a3, "pgEnum"@);
        lemma_contains_prefix(a0 + a1 + a2 + a3, a4, "pgEnum"@);
        lemma_contains_prefix(a0 + a1 + a2 + a3 + a4, rest, "pgEnum"@);
    }
}


proof fn lemma_imported_prefix_sorted(tables: Seq<TableDef>, n: int)
    requires
        0 <= n <= 17,
    ensures
        forall|x: int|
            0 <= x < imported_types(tables, all_pg_core_types().take(n)).len() ==> exists|m: int|
                0 <= m < n && #[trigger] imported_types(tables, all_pg_core_types().take(n))[x]
                    == pg_name(all_pg_core_types()[m]),
        forall|i: int, j: int|
            0 <= i < j < imported_types(tables, all_pg_core_types().take(n)).len() ==> lex_lt(
                #[trigger] imported_types(tables, all_pg_core_types().take(n))[i],
                #[trigger] imported_types(tables, all_pg_core_types().take(n))[j],
            ),
    decreases n,
{
    let all = all_pg_core_types();
    if n > 0 {
        lemma_imported_prefix_sorted(tables, n - 1);
        let ks = all.take(n);
        assert(ks.drop_last() =~= all.take(n - 1));
        assert(ks.last() == all[n - 1]);
        let prev = imported_types(tables, all.take(n - 1));
        let l = imported_types(tables, ks);
        assert(l == prev + when(imports_type(tables, all[n - 1]), pg_name(all[n - 1])));
        assert forall|x: int| 0 <= x < l.len() implies exists|m: int|
            0 <= m < n && #[trigger] l[x] == pg_name(all[m]) by {
            if x < prev.len() {
                assert(l[x] == prev[x]);
                let m = choose|m: int| 0 <= m < n - 1 && #[trigger] prev[x] == pg_name(all[m]);
                assert(l[x] == pg_name(all[m]));
            } else {
                assert(l[x] == pg_name(all[n - 1]));
            }
        }
        assert forall|i: int, j: int| 0 <= i < j < l.len() implies lex_lt(
            #[trigger] l[i],
            #[trigger] l[j],
        ) by {
            assert(l[i] == prev[i]);
            if j < prev.len() {
                assert(l[j] == prev[j]);
            } else {
                let m = choose|m: int| 0 <= m < n - 1 && #[trigger] prev[i] == pg_name(all[m]);
                assert(l[j] == pg_name(all[n - 1]));
                lemma_pg_names_sorted(m, n - 1);
            }
        }
    } else {
        assert(imported_types(tables, all.take(0)) =~= Seq::<Seq<char>>::empty());
    }
}

/// The column constructors in the `pg-core` import list come in strictly
/// increasing alphabetical order, so none is listed twice.
pub proof fn lemma_imported_types_sorted(tables: Seq<TableDef>)
    ensures
        forall|i: int, j: int|
            0 <= i < j < imported_types(tables, all_pg_core_types()).len() ==> lex_lt(
                #[trigger] imported_types(tables, all_pg_core_types())[i],
                #[trigger] imported_types(tables, all_pg_core_types())[j],
            ),
{
    lemma_imported_prefix_sorted(tables, 17);
    assert(all_pg_core_types().take(17) =~= all_pg_core_types());
}

} // verus!
