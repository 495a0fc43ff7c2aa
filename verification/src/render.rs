//! The `pgTable(...)` declaration of a table.

use vstd::prelude::*;

use crate::defaults::{default_chain, drizzle_default_chain};
use crate::enums::{camel, pascal, push_str, to_camel_case, to_pascal_case};
use crate::model::{ColumnDef, ReferenceAction, TableConstraint, TableDef};
use crate::text::{
    chars_of, contains, contains_string, ends_with, join, join_strings, lemma_contains_middle, lemma_contains_within,
    lemma_ends_with_suffix, lines, lines_of, str_eq, string_from, views,
};
use crate::types::{col_type_call, render_col_type_call};

verus! {

// ─── Constraint lookups ─────────────────────────────────────────────────────

/// The column of a single-column foreign key.
pub open spec fn single_fk_col(c: TableConstraint) -> Option<Seq<char>> {
    match c {
        TableConstraint::ForeignKey { columns, .. } => if columns@.len() == 1 {
            Some(columns@[0]@)
        } else {
            None
        },
        _ => None,
    }
}

/// The column of a single-column unique constraint.
pub open spec fn single_unique_col(c: TableConstraint) -> Option<Seq<char>> {
    match c {
        TableConstraint::Unique { columns, .. } => if columns@.len() == 1 {
            Some(columns@[0]@)
        } else {
            None
        },
        _ => None,
    }
}

/// The index of the last single-column foreign key on column `col`: the one
/// that a column-keyed map of the foreign keys keeps.
pub open spec fn last_fk_on(cs: Seq<TableConstraint>, col: Seq<char>) -> Option<int>
    decreases cs.len(),
{
    if cs.len() == 0 {
        None
    } else if single_fk_col(cs.last()) == Some(col) {
        Some(cs.len() - 1)
    } else {
        last_fk_on(cs.drop_last(), col)
    }
}

/// The kept foreign key on `col` is a single-column foreign key on `col`.
pub proof fn lemma_last_fk_on(cs: Seq<TableConstraint>, col: Seq<char>)
    ensures
        last_fk_on(cs, col) matches Some(k) ==> 0 <= k < cs.len() && single_fk_col(cs[k]) == Some(
            col,
        ),
    decreases cs.len(),
{
    if cs.len() > 0 && single_fk_col(cs.last()) != Some(col) {
        lemma_last_fk_on(cs.drop_last(), col);
    }
}

/// The index of the last single-column unique constraint on column `col`.
pub open spec fn last_unique_on(cs: Seq<TableConstraint>, col: Seq<char>) -> Option<int>
    decreases cs.len(),
{
    if cs.len() == 0 {
        None
    } else if single_unique_col(cs.last()) == Some(col) {
        Some(cs.len() - 1)
    } else {
        last_unique_on(cs.drop_last(), col)
    }
}

/// The index of the first primary key constraint.
pub open spec fn first_pk(cs: Seq<TableConstraint>) -> Option<int>
    decreases cs.len(),
{
    if cs.len() == 0 {
        None
    } else if cs[0] is PrimaryKey {
        Some(0)
    } else {
        match first_pk(cs.drop_first()) {
            Some(j) => Some(j + 1),
            None => None,
        }
    }
}

/// The columns of the (first) primary key; none when there is no primary key.
pub open spec fn pk_columns(cs: Seq<TableConstraint>) -> Seq<Seq<char>> {
    match first_pk(cs) {
        Some(j) => match cs[j] {
            TableConstraint::PrimaryKey { columns, .. } => views(columns@),
            _ => Seq::empty(),
        },
        None => Seq::empty(),
    }
}

/// Whether the (first) primary key is auto-incrementing.
pub open spec fn pk_auto(cs: Seq<TableConstraint>) -> bool {
    match first_pk(cs) {
        Some(j) => match cs[j] {
            TableConstraint::PrimaryKey { auto_increment, .. } => auto_increment,
            _ => false,
        },
        None => false,
    }
}

/// Column `name` is the whole of a single-column primary key.
pub open spec fn single_pk(cs: Seq<TableConstraint>, name: Seq<char>) -> bool {
    pk_columns(cs).contains(name) && !(pk_columns(cs).len() > 1)
}

/// Column `name` is an auto-incrementing single-column primary key.
pub open spec fn auto_inc(cs: Seq<TableConstraint>, name: Seq<char>) -> bool {
    single_pk(cs, name) && pk_auto(cs)
}

/// Primary key columns and whether the key auto-increments.
pub struct PkInfo {
    pub columns: Vec<String>,
    pub auto_increment: bool,
}

fn clone_strings(v: &Vec<String>) -> (res: Vec<String>)
    ensures
        views(res@) == views(v@),
{
    let mut out: Vec<String> = Vec::new();
    let mut i: usize = 0;
    while i < v.len()
        invariant
            i <= v.len(),
            views(out@) == views(v@).take(i as int),
        decreases v.len() - i,
    {
        let c = v[i].clone();
        let ghost prev = views(out@);
        let ghost cv = c@;
        out.push(c);
        assert(views(out@) =~= prev.push(cv));
        assert(views(out@) =~= views(v@).take(i + 1));
        i = i + 1;
    }
    assert(views(v@).take(v.len() as int) =~= views(v@));
    out
}

/// The columns of the first primary key constraint and its auto-increment flag.
pub fn extract_pk_info(constraints: &Vec<TableConstraint>) -> (res: PkInfo)
    ensures
        views(res.columns@) == pk_columns(constraints@),
        res.auto_increment == pk_auto(constraints@),
{
    let ghost cs = constraints@;
    let mut i: usize = 0;
    assert(cs.skip(0) =~= cs);
    while i < constraints.len()
        invariant
            i <= constraints.len(),
            cs == constraints@,
            forall|k: int| 0 <= k < i ==> !(cs[k] is PrimaryKey),
            first_pk(cs) == match first_pk(cs.skip(i as int)) {
                Some(j) => Some(j + i),
                None => None,
            },
        decreases constraints.len() - i,
    {
        assert(cs.skip(i as int)[0] == cs[i as int]);
        match &constraints[i] {
            TableConstraint::PrimaryKey { auto_increment, columns } => {
                assert(first_pk(cs) == Some(i as int));
                return PkInfo { columns: clone_strings(columns), auto_increment: *auto_increment };
            },
            _ => {},
        }
        assert(cs.skip(i as int).drop_first() =~= cs.skip(i + 1));
        i = i + 1;
    }
    PkInfo { columns: Vec::new(), auto_increment: false }
}

/// The index of the last single-column foreign key on column `col`.
pub fn fk_index(constraints: &Vec<TableConstraint>, col: &str) -> (res: Option<usize>)
    ensures
        match res {
            Some(j) => j < constraints.len() && last_fk_on(constraints@, col@) == Some(j as int),
            None => last_fk_on(constraints@, col@) is None,
        },
{
    let mut found: Option<usize> = None;
    let mut i: usize = 0;
    while i < constraints.len()
        invariant
            i <= constraints.len(),
            match found {
                Some(j) => j < i && last_fk_on(constraints@.take(i as int), col@) == Some(
                    j as int,
                ),
                None => last_fk_on(constraints@.take(i as int), col@) is None,
            },
        decreases constraints.len() - i,
    {
        assert(constraints@.take(i + 1).drop_last() =~= constraints@.take(i as int));
        match &constraints[i] {
            TableConstraint::ForeignKey { columns, .. } => {
                if columns.len() == 1 && str_eq(columns[0].as_str(), col) {
                    found = Some(i);
                }
            },
            _ => {},
        }
        i = i + 1;
    }
    assert(constraints@.take(constraints.len() as int) =~= constraints@);
    found
}

/// The index of the last single-column unique constraint on column `col`.
pub fn unique_index(constraints: &Vec<TableConstraint>, col: &str) -> (res: Option<usize>)
    ensures
        match res {
            Some(j) => j < constraints.len() && last_unique_on(constraints@, col@) == Some(
                j as int,
            ),
            None => last_unique_on(constraints@, col@) is None,
        },
{
    let mut found: Option<usize> = None;
    let mut i: usize = 0;
    while i < constraints.len()
        invariant
            i <= constraints.len(),
            match found {
                Some(j) => j < i && last_unique_on(constraints@.take(i as int), col@) == Some(
                    j as int,
                ),
                None => last_unique_on(constraints@.take(i as int), col@) is None,
            },
        decreases constraints.len() - i,
    {
        assert(constraints@.take(i + 1).drop_last() =~= constraints@.take(i as int));
        match &constraints[i] {
            TableConstraint::Unique { columns, .. } => {
                if columns.len() == 1 && str_eq(columns[0].as_str(), col) {
                    found = Some(i);
                }
            },
            _ => {},
        }
        i = i + 1;
    }
    assert(constraints@.take(constraints.len() as int) =~= constraints@);
    found
}

// ─── Reference actions ─────────────────────────────────────────────────────

/// The Drizzle spelling of a referential action.
pub open spec fn action_name(a: ReferenceAction) -> Seq<char> {
    match a {
        ReferenceAction::Cascade => "cascade"@,
        ReferenceAction::Restrict => "restrict"@,
        ReferenceAction::SetNull => "set null"@,
        ReferenceAction::SetDefault => "set default"@,
        ReferenceAction::NoAction => "no action"@,
    }
}

/// The Drizzle spelling of a referential action.
pub fn reference_action_to_drizzle(action: &ReferenceAction) -> (res: &'static str)
    ensures
        res@ == action_name(*action),
{
    match action {
        ReferenceAction::Cascade => "cascade",
        ReferenceAction::Restrict => "restrict",
        ReferenceAction::SetNull => "set null",
        ReferenceAction::SetDefault => "set default",
        ReferenceAction::NoAction => "no action",
    }
}

// ─── Column lines ───────────────────────────────────────────────────────────

/// The first referenced column, or `id` when none is named.
pub open spec fn first_or_id(ref_columns: Seq<String>) -> Seq<char> {
    if ref_columns.len() > 0 {
        ref_columns[0]@
    } else {
        "id"@
    }
}

/// The `onDelete` / `onUpdate` options of a foreign key reference.
pub open spec fn ref_options(on_delete: Option<ReferenceAction>, on_update: Option<ReferenceAction>) -> Seq<Seq<char>> {
    (match on_delete {
        Some(a) => seq!["onDelete: \""@ + action_name(a) + "\""@],
        None => Seq::empty(),
    }) + (match on_update {
        Some(a) => seq!["onUpdate: \""@ + action_name(a) + "\""@],
        None => Seq::empty(),
    })
}

/// `.references(() => refTable.refCol)`, with `{ ... }` options when there are any.
pub open spec fn references_call(fk: TableConstraint) -> Seq<char> {
    match fk {
        TableConstraint::ForeignKey { ref_table, ref_columns, on_delete, on_update, .. } => {
            let head = ".references(() => "@ + camel(ref_table@) + "."@ + camel(
                first_or_id(ref_columns@),
            );
            let opts = ref_options(on_delete, on_update);
            if opts.len() == 0 {
                head + ")"@
            } else {
                head + ", { "@ + join(opts, ", "@) + " })"@
            }
        },
        _ => Seq::empty(),
    }
}

/// The `.unique(...)` call of a column: present for a column with a
/// single-column unique constraint that is not the single-column primary key.
pub open spec fn unique_part(cs: Seq<TableConstraint>, name: Seq<char>) -> Seq<char> {
    match last_unique_on(cs, name) {
        Some(j) => if single_pk(cs, name) {
            Seq::empty()
        } else {
            match cs[j] {
                TableConstraint::Unique { name: uname, .. } => match uname {
                    Some(n) => ".unique(\""@ + n@ + "\")"@,
                    None => ".unique()"@,
                },
                _ => Seq::empty(),
            }
        },
        None => Seq::empty(),
    }
}

/// The `.references(...)` call of a column with a single-column foreign key.
pub open spec fn references_part(cs: Seq<TableConstraint>, name: Seq<char>) -> Seq<char> {
    match last_fk_on(cs, name) {
        Some(j) => references_call(cs[j]),
        None => Seq::empty(),
    }
}

/// The `.default...()` call of a column; none for an auto-increment column.
pub open spec fn default_part(cs: Seq<TableConstraint>, col: ColumnDef) -> Seq<char> {
    match col.default {
        Some(d) => if auto_inc(cs, col.name@) {
            Seq::empty()
        } else {
            default_chain(d@, col.column_type)
        },
        None => Seq::empty(),
    }
}

/// The line that declares a column inside `pgTable(...)`.
pub open spec fn column_line(cs: Seq<TableConstraint>, col: ColumnDef) -> Seq<char> {
    let name = col.name@;
    let sp = single_pk(cs, name);
    "  "@ + camel(name) + ": "@ + col_type_call(col.column_type, name, auto_inc(cs, name)) + (if sp {
        ".primaryKey()"@
    } else {
        Seq::empty()
    }) + (if !col.nullable && !sp {
        ".notNull()"@
    } else {
        Seq::empty()
    }) + unique_part(cs, name) + default_part(cs, col) + references_part(cs, name) + ","@
}

fn push_camel(out: &mut String, s: &str)
    ensures
        final(out)@ == old(out)@ + camel(s@),
{
    let c = to_camel_case(s);
    push_str(out, c.as_str());
}

fn render_references(fk: &TableConstraint) -> (res: String)
    ensures
        res@ == references_call(*fk),
{
    match fk {
        TableConstraint::ForeignKey { ref_table, ref_columns, on_delete, on_update, .. } => {
            let mut out = String::from_str(".references(() => ");
            push_camel(&mut out, ref_table.as_str());
            push_str(&mut out, ".");
            if ref_columns.len() > 0 {
                push_camel(&mut out, ref_columns[0].as_str());
            } else {
                push_camel(&mut out, "id");
            }
            let mut opts: Vec<String> = Vec::new();
            match on_delete {
                Some(a) => {
                    let mut o = String::from_str("onDelete: \"");
                    push_str(&mut o, reference_action_to_drizzle(a));
                    push_str(&mut o, "\"");
                    opts.push(o);
                },
                None => {},
            }
            match on_update {
                Some(a) => {
                    let mut o = String::from_str("onUpdate: \"");
                    push_str(&mut o, reference_action_to_drizzle(a));
                    push_str(&mut o, "\"");
                    opts.push(o);
                },
                None => {},
            }
            assert(views(opts@) =~= ref_options(*on_delete, *on_update));
            if opts.len() == 0 {
                push_str(&mut out, ")");
            } else {
                push_str(&mut out, ", { ");
                let j = join_strings(&opts, ", ");
                push_str(&mut out, j.as_str());
                push_str(&mut out, " })");
            }
            out
        },
        _ => String::new(),
    }
}

fn render_column_line(constraints: &Vec<TableConstraint>, pk: &PkInfo, col: &ColumnDef) -> (res: String)
    requires
        views(pk.columns@) == pk_columns(constraints@),
        pk.auto_increment == pk_auto(constraints@),
    ensures
        res@ == column_line(constraints@, *col),
{
    let ghost cs = constraints@;
    let col_db = col.name.as_str();
    let cd = chars_of(col_db);
    let in_pk = contains_string(&pk.columns, cd.as_slice());
    let is_composite_pk = pk.columns.len() > 1;
    let is_single_pk = in_pk && !is_composite_pk;
    let auto = is_single_pk && pk.auto_increment;
    assert(is_single_pk == single_pk(cs, col_db@));
    let mut out = String::from_str("  ");
    push_camel(&mut out, col_db);
    push_str(&mut out, ": ");
    let call = render_col_type_call(&col.column_type, col_db, auto);
    push_str(&mut out, call.as_str());
    if is_single_pk {
        push_str(&mut out, ".primaryKey()");
    }
    if !col.nullable && !is_single_pk {
        push_str(&mut out, ".notNull()");
    }
    let ghost before_unique = out@;
    match unique_index(constraints, col_db) {
        Some(j) => {
            if !is_single_pk {
                match &constraints[j] {
                    TableConstraint::Unique { name, .. } => match name {
                        Some(n) => {
                            push_str(&mut out, ".unique(\"");
                            push_str(&mut out, n.as_str());
                            push_str(&mut out, "\")");
                        },
                        None => {
                            push_str(&mut out, ".unique()");
                        },
                    },
                    _ => {},
                }
            }
        },
        None => {},
    }
    assert(out@ == before_unique + unique_part(cs, col_db@));
    let ghost before_default = out@;
    if !auto {
        match &col.default {
            Some(d) => {
                let chain = drizzle_default_chain(d.as_str(), &col.column_type);
                push_str(&mut out, chain.as_str());
            },
            None => {},
        }
    }
    assert(out@ == before_default + default_part(cs, *col));
    let ghost before_refs = out@;
    match fk_index(constraints, col_db) {
        Some(j) => {
            let r = render_references(&constraints[j]);
            push_str(&mut out, r.as_str());
        },
        None => {},
    }
    assert(out@ == before_refs + references_part(cs, col_db@));
    push_str(&mut out, ",");
    out
}


// ─── Table-level constraint lines ────────────────────────────────────────────

/// `t.<camelCol>`
pub open spec fn col_ref(c: Seq<char>) -> Seq<char> {
    "t."@ + camel(c)
}

/// The column references of a table-level constraint, comma separated.
pub open spec fn col_refs(cols: Seq<Seq<char>>) -> Seq<char> {
    join(cols.map_values(|c: Seq<char>| col_ref(c)), ", "@)
}

/// The PascalCase column names, concatenated.
pub open spec fn pascal_concat(cols: Seq<Seq<char>>) -> Seq<char> {
    join(cols.map_values(|c: Seq<char>| pascal(c)), Seq::empty())
}

/// The composite primary key line, when the primary key has several columns.
pub open spec fn pk_lines(cs: Seq<TableConstraint>) -> Seq<Seq<char>> {
    if pk_columns(cs).len() > 1 {
        seq!["  pk: primaryKey({ columns: ["@ + col_refs(pk_columns(cs)) + "] }),"@]
    } else {
        Seq::empty()
    }
}

/// A named table-level constraint line (`kind` is `unique` or `index`): the
/// key is the camelCase constraint name, or `prefix` followed by the
/// PascalCase column names when the constraint has no name.
pub open spec fn composite_line(
    kind: Seq<char>,
    prefix: Seq<char>,
    name: Option<String>,
    cols: Seq<Seq<char>>,
) -> Seq<char> {
    let expr = match name {
        Some(n) => kind + "(\""@ + n@ + "\").on("@ + col_refs(cols) + ")"@,
        None => kind + "().on("@ + col_refs(cols) + ")"@,
    };
    let key = match name {
        Some(n) => camel(n@),
        None => prefix + pascal_concat(cols),
    };
    "  "@ + key + ": "@ + expr + ","@
}

/// The line of a constraint among the unique constraints with several columns.
pub open spec fn unique_line_of(c: TableConstraint) -> Seq<Seq<char>> {
    match c {
        TableConstraint::Unique { name, columns } => if columns@.len() > 1 {
            seq![composite_line("unique"@, "uq"@, name, views(columns@))]
        } else {
            Seq::empty()
        },
        _ => Seq::empty(),
    }
}

/// The line of a constraint among the index constraints.
pub open spec fn index_line_of(c: TableConstraint) -> Seq<Seq<char>> {
    match c {
        TableConstraint::Index { name, columns } => seq![
            composite_line("index"@, "idx"@, name, views(columns@)),
        ],
        _ => Seq::empty(),
    }
}

/// The lines of the multi-column unique constraints, in order.
pub open spec fn unique_lines(cs: Seq<TableConstraint>) -> Seq<Seq<char>>
    decreases cs.len(),
{
    if cs.len() == 0 {
        Seq::empty()
    } else {
        unique_lines(cs.drop_last()) + unique_line_of(cs.last())
    }
}

/// The lines of the index constraints, in order.
pub open spec fn index_lines(cs: Seq<TableConstraint>) -> Seq<Seq<char>>
    decreases cs.len(),
{
    if cs.len() == 0 {
        Seq::empty()
    } else {
        index_lines(cs.drop_last()) + index_line_of(cs.last())
    }
}

/// All table-level constraint lines: composite primary key, then multi-column
/// unique constraints, then indexes.
pub open spec fn constraint_lines(cs: Seq<TableConstraint>) -> Seq<Seq<char>> {
    pk_lines(cs) + unique_lines(cs) + index_lines(cs)
}

/// The comment lines of a table description.
pub open spec fn description_lines(d: Option<String>) -> Seq<Seq<char>> {
    match d {
        Some(s) => lines(s@).map_values(|l: Seq<char>| "// "@ + l),
        None => Seq::empty(),
    }
}

/// The lines of a table's `pgTable(...)` declaration.
pub open spec fn table_lines(t: TableDef) -> Seq<Seq<char>> {
    let cs = t.constraints@;
    let cons = constraint_lines(cs);
    description_lines(t.description) + seq![
        "export const "@ + camel(t.name@) + " = pgTable(\""@ + t.name@ + "\", {"@,
    ] + t.columns@.map_values(|c: ColumnDef| column_line(cs, c)) + if cons.len() == 0 {
        seq!["});"@]
    } else {
        seq!["}, (t) => ({"@] + cons + seq!["}));"@]
    }
}

/// The `pgTable(...)` declaration of a table.
pub open spec fn table_block(t: TableDef) -> Seq<char> {
    join(table_lines(t), "\n"@)
}

fn push_line(lines: &mut Vec<String>, l: String)
    ensures
        views(final(lines)@) == views(old(lines)@).push(l@),
{
    let ghost prev = views(lines@);
    let ghost lv = l@;
    lines.push(l);
    assert(views(lines@) =~= prev.push(lv));
}

fn append_lines(dst: &mut Vec<String>, src: Vec<String>)
    ensures
        views(final(dst)@) == views(old(dst)@) + views(src@),
{
    let mut src = src;
    let ghost a = dst@;
    let ghost b = src@;
    dst.append(&mut src);
    assert(views(dst@) =~= views(a) + views(b));
}

fn render_col_refs(cols: &Vec<String>) -> (res: String)
    ensures
        res@ == col_refs(views(cols@)),
{
    let mut refs: Vec<String> = Vec::new();
    let mut i: usize = 0;
    while i < cols.len()
        invariant
            i <= cols.len(),
            views(refs@) == views(cols@).take(i as int).map_values(|c: Seq<char>| col_ref(c)),
        decreases cols.len() - i,
    {
        let mut r = String::from_str("t.");
        push_camel(&mut r, cols[i].as_str());
        push_line(&mut refs, r);
        assert(views(refs@) =~= views(cols@).take(i + 1).map_values(|c: Seq<char>| col_ref(c)));
        i = i + 1;
    }
    assert(views(cols@).take(cols.len() as int) =~= views(cols@));
    join_strings(&refs, ", ")
}

fn render_pascal_concat(cols: &Vec<String>) -> (res: String)
    ensures
        res@ == pascal_concat(views(cols@)),
{
    let mut parts: Vec<String> = Vec::new();
    let mut i: usize = 0;
    while i < cols.len()
        invariant
            i <= cols.len(),
            views(parts@) == views(cols@).take(i as int).map_values(|c: Seq<char>| pascal(c)),
        decreases cols.len() - i,
    {
        let p = to_pascal_case(cols[i].as_str());
        push_line(&mut parts, p);
        assert(views(parts@) =~= views(cols@).take(i + 1).map_values(|c: Seq<char>| pascal(c)));
        i = i + 1;
    }
    assert(views(cols@).take(cols.len() as int) =~= views(cols@));
    proof {
        reveal_strlit("");
    }
    assert(""@ =~= Seq::<char>::empty());
    join_strings(&parts, "")
}

fn render_composite_line(kind: &str, prefix: &str, name: &Option<String>, cols: &Vec<String>) -> (res: String)
    ensures
        res@ == composite_line(kind@, prefix@, *name, views(cols@)),
{
    let refs = render_col_refs(cols);
    let mut out = String::from_str("  ");
    match name {
        Some(n) => push_camel(&mut out, n.as_str()),
        None => {
            push_str(&mut out, prefix);
            let p = render_pascal_concat(cols);
            push_str(&mut out, p.as_str());
        },
    }
    push_str(&mut out, ": ");
    push_str(&mut out, kind);
    match name {
        Some(n) => {
            push_str(&mut out, "(\"");
            push_str(&mut out, n.as_str());
            push_str(&mut out, "\").on(");
        },
        None => {
            push_str(&mut out, "().on(");
        },
    }
    push_str(&mut out, refs.as_str());
    push_str(&mut out, ")");
    push_str(&mut out, ",");
    out
}

fn render_constraint_lines(constraints: &Vec<TableConstraint>, pk: &PkInfo) -> (res: Vec<String>)
    requires
        views(pk.columns@) == pk_columns(constraints@),
    ensures
        views(res@) == constraint_lines(constraints@),
{
    let ghost cs = constraints@;
    let mut out: Vec<String> = Vec::new();
    if pk.columns.len() > 1 {
        let mut l = String::from_str("  pk: primaryKey({ columns: [");
        let refs = render_col_refs(&pk.columns);
        push_str(&mut l, refs.as_str());
        push_str(&mut l, "] }),");
        push_line(&mut out, l);
    }
    assert(views(out@) =~= pk_lines(cs));
    let mut i: usize = 0;
    while i < constraints.len()
        invariant
            i <= constraints.len(),
            cs == constraints@,
            views(out@) == pk_lines(cs) + unique_lines(cs.take(i as int)),
        decreases constraints.len() - i,
    {
        assert(cs.take(i + 1).drop_last() =~= cs.take(i as int));
        let ghost prev = views(out@);
        match &constraints[i] {
            TableConstraint::Unique { name, columns } => {
                if columns.len() > 1 {
                    let l = render_composite_line("unique", "uq", name, columns);
                    push_line(&mut out, l);
                }
            },
            _ => {},
        }
        assert(views(out@) =~= prev + unique_line_of(cs[i as int]));
        i = i + 1;
    }
    assert(cs.take(cs.len() as int) =~= cs);
    let mut i: usize = 0;
    while i < constraints.len()
        invariant
            i <= constraints.len(),
            cs == constraints@,
            views(out@) == pk_lines(cs) + unique_lines(cs) + index_lines(cs.take(i as int)),
        decreases constraints.len() - i,
    {
        assert(cs.take(i + 1).drop_last() =~= cs.take(i as int));
        let ghost prev = views(out@);
        match &constraints[i] {
            TableConstraint::Index { name, columns } => {
                let l = render_composite_line("index", "idx", name, columns);
                push_line(&mut out, l);
            },
            _ => {},
        }
        assert(views(out@) =~= prev + index_line_of(cs[i as int]));
        i = i + 1;
    }
    out
}

fn render_description_lines(desc: &Option<String>) -> (res: Vec<String>)
    ensures
        views(res@) == description_lines(*desc),
{
    let mut out: Vec<String> = Vec::new();
    match desc {
        Some(d) => {
            let cs = chars_of(d.as_str());
            let ls = lines_of(cs.as_slice());
            let ghost lv = ls@.map_values(|l: Vec<char>| l@);
            let mut i: usize = 0;
            while i < ls.len()
                invariant
                    i <= ls.len(),
                    lv == ls@.map_values(|l: Vec<char>| l@),
                    views(out@) == lv.take(i as int).map_values(|l: Seq<char>| "// "@ + l),
                decreases ls.len() - i,
            {
                let mut l = String::from_str("// ");
                let body = string_from(ls[i].as_slice());
                push_str(&mut l, body.as_str());
                push_line(&mut out, l);
                assert(views(out@) =~= lv.take(i + 1).map_values(|l: Seq<char>| "// "@ + l));
                i = i + 1;
            }
            assert(lv.take(ls.len() as int) =~= lv);
        },
        None => {},
    }
    out
}

/// Renders the `pgTable(...)` declaration of a table. The schema is not
/// consulted: a table's declaration depends on the table alone.
pub fn render_table(table: &TableDef, _schema: &[TableDef]) -> (res: String)
    ensures
        res@ == table_block(*table),
{
    let ghost cs = table.constraints@;
    let pk = extract_pk_info(&table.constraints);
    let mut lines = render_description_lines(&table.description);
    let mut header = String::from_str("export const ");
    push_camel(&mut header, table.name.as_str());
    push_str(&mut header, " = pgTable(\"");
    push_str(&mut header, table.name.as_str());
    push_str(&mut header, "\", {");
    push_line(&mut lines, header);
    let ghost head = views(lines@);
    let mut i: usize = 0;
    while i < table.columns.len()
        invariant
            i <= table.columns.len(),
            cs == table.constraints@,
            views(pk.columns@) == pk_columns(cs),
            pk.auto_increment == pk_auto(cs),
            views(lines@) == head + table.columns@.take(i as int).map_values(
                |c: ColumnDef| column_line(cs, c),
            ),
        decreases table.columns.len() - i,
    {
        let l = render_column_line(&table.constraints, &pk, &table.columns[i]);
        push_line(&mut lines, l);
        assert(views(lines@) =~= head + table.columns@.take(i + 1).map_values(
            |c: ColumnDef| column_line(cs, c),
        ));
        i = i + 1;
    }
    assert(table.columns@.take(table.columns.len() as int) =~= table.columns@);
    let cons = render_constraint_lines(&table.constraints, &pk);
    if cons.len() == 0 {
        push_line(&mut lines, String::from_str("});"));
    } else {
        push_line(&mut lines, String::from_str("}, (t) => ({"));
        append_lines(&mut lines, cons);
        push_line(&mut lines, String::from_str("}));"));
    }
    assert(views(lines@) =~= table_lines(*table));
    join_strings(&lines, "\n")
}


/// Distinct referential actions have distinct Drizzle names.
pub proof fn lemma_action_names_distinct(a: ReferenceAction, b: ReferenceAction)
    requires
        a != b,
    ensures
        action_name(a) != action_name(b),
{
    reveal_strlit("cascade");
    reveal_strlit("restrict");
    reveal_strlit("set null");
    reveal_strlit("set default");
    reveal_strlit("no action");
    if action_name(a).len() == action_name(b).len() {
        assert(action_name(a)[0] != action_name(b)[0]);
    }
}

/// The `.references(...)` call of a foreign key: the referenced table and
/// column, then one option per referential action that is present, each
/// naming its action, `onDelete` before `onUpdate`; with no action present
/// there is no option object.
pub proof fn lemma_references_options(fk: TableConstraint)
    requires
        fk is ForeignKey,
    ensures
        ({
            let head = ".references(() => "@ + camel(fk->ref_table@) + "."@ + camel(
                first_or_id(fk->ref_columns@),
            );
            let del = "onDelete: \""@ + action_name(fk->on_delete.unwrap()) + "\""@;
            let upd = "onUpdate: \""@ + action_name(fk->on_update.unwrap()) + "\""@;
            &&& (fk->on_delete is None && fk->on_update is None) ==> references_call(fk) == head
                + ")"@
            &&& (fk->on_delete is Some && fk->on_update is None) ==> references_call(fk) == head
                + ", { "@ + del + " })"@
            &&& (fk->on_delete is None && fk->on_update is Some) ==> references_call(fk) == head
                + ", { "@ + upd + " })"@
            &&& (fk->on_delete is Some && fk->on_update is Some) ==> references_call(fk) == head
                + ", { "@ + del + ", "@ + upd + " })"@
        }),
{
    let opts = ref_options(fk->on_delete, fk->on_update);
    let del = "onDelete: \""@ + action_name(fk->on_delete.unwrap()) + "\""@;
    let upd = "onUpdate: \""@ + action_name(fk->on_update.unwrap()) + "\""@;
    if fk->on_delete is Some && fk->on_update is Some {
        assert(opts =~= seq![del, upd]);
        assert(seq![del, upd].drop_last() =~= seq![del]);
        assert(join(seq![del], ", "@) == del);
        assert(join(seq![del, upd], ", "@) == del + ", "@ + upd);
    } else if fk->on_delete is Some {
        assert(opts =~= seq![del]);
    } else if fk->on_update is Some {
        assert(opts =~= seq![upd]);
    } else {
        assert(opts =~= Seq::<Seq<char>>::empty());
    }
}

proof fn lemma_references_contain_actions(fk: TableConstraint)
    requires
        fk is ForeignKey,
    ensures
        fk->on_delete is Some ==> contains(
            references_call(fk),
            "onDelete: \""@ + action_name(fk->on_delete.unwrap()) + "\""@,
        ),
        fk->on_update is Some ==> contains(
            references_call(fk),
            "onUpdate: \""@ + action_name(fk->on_update.unwrap()) + "\""@,
        ),
{
    lemma_references_options(fk);
    let r = references_call(fk);
    let head = ".references(() => "@ + camel(fk->ref_table@) + "."@ + camel(
        first_or_id(fk->ref_columns@),
    );
    let del = "onDelete: \""@ + action_name(fk->on_delete.unwrap()) + "\""@;
    let upd = "onUpdate: \""@ + action_name(fk->on_update.unwrap()) + "\""@;
    if fk->on_delete is Some && fk->on_update is Some {
        assert(r =~= (head + ", { "@) + del + (", "@ + upd + " })"@));
        lemma_contains_middle(head + ", { "@, del, ", "@ + upd + " })"@);
        assert(r =~= (head + ", { "@ + del + ", "@) + upd + " })"@);
        lemma_contains_middle(head + ", { "@ + del + ", "@, upd, " })"@);
    } else if fk->on_delete is Some {
        assert(r =~= (head + ", { "@) + del + " })"@);
        lemma_contains_middle(head + ", { "@, del, " })"@);
    } else if fk->on_update is Some {
        assert(r =~= (head + ", { "@) + upd + " })"@);
        lemma_contains_middle(head + ", { "@, upd, " })"@);
    }
}

/// The line of a column up to its `.references(...)` part.
spec fn column_head(cs: Seq<TableConstraint>, col: ColumnDef) -> Seq<char> {
    let name = col.name@;
    let sp = single_pk(cs, name);
    "  "@ + camel(name) + ": "@ + col_type_call(col.column_type, name, auto_inc(cs, name)) + (if sp {
        ".primaryKey()"@
    } else {
        Seq::empty()
    }) + (if !col.nullable && !sp {
        ".notNull()"@
    } else {
        Seq::empty()
    }) + unique_part(cs, name) + default_part(cs, col)
}

proof fn lemma_column_line_shape(cs: Seq<TableConstraint>, col: ColumnDef)
    ensures
        column_line(cs, col) == column_head(cs, col) + references_part(cs, col.name@) + ","@,
{
}

/// The line of a column whose kept foreign key is constraint `j` ends with
/// that key's `.references(...)` call, and lists each of its referential
/// actions by name.
pub proof fn lemma_column_references(cs: Seq<TableConstraint>, col: ColumnDef, j: int)
    requires
        last_fk_on(cs, col.name@) == Some(j),
    ensures
        ends_with(column_line(cs, col), references_call(cs[j]) + ","@),
        cs[j]->on_delete is Some ==> contains(
            column_line(cs, col),
            "onDelete: \""@ + action_name(cs[j]->on_delete.unwrap()) + "\""@,
        ),
        cs[j]->on_update is Some ==> contains(
            column_line(cs, col),
            "onUpdate: \""@ + action_name(cs[j]->on_update.unwrap()) + "\""@,
        ),
{
    lemma_last_fk_on(cs, col.name@);
    let name = col.name@;
    let r = references_call(cs[j]);
    let pre = column_head(cs, col);
    lemma_column_line_shape(cs, col);
    assert(references_part(cs, name) == r);
    lemma_ends_with_suffix(pre, r + ","@);
    assert(pre + r + ","@ =~= pre + (r + ","@));
    lemma_references_contain_actions(cs[j]);
    if cs[j]->on_delete is Some {
        lemma_contains_within(pre, r, ","@, "onDelete: \""@ + action_name(cs[j]->on_delete.unwrap()) + "\""@);
    }
    if cs[j]->on_update is Some {
        lemma_contains_within(pre, r, ","@, "onUpdate: \""@ + action_name(cs[j]->on_update.unwrap()) + "\""@);
    }
}

} // verus!
