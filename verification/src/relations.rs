//! The `relations(...)` declaration of a table: one `one(...)` per foreign-key
//! column, and a back relation for every foreign key that points at the table.

use vstd::prelude::*;

use crate::enums::{
    camel, infer_relation_field_name, pascal, push_str, relation_field, to_camel_case,
    to_pascal_case,
};
use crate::model::{opt_view, ColumnDef, TableConstraint, TableDef};
use crate::render::{
    description_lines, fk_index, first_or_id, last_fk_on, lemma_last_fk_on, single_fk_col,
    single_unique_col, table_block, table_lines,
};
use crate::text::{
    contains, join, join_strings, lemma_contains_middle, lemma_contains_trans,
    lemma_contains_within, lemma_join_contains, lemma_join_head, starts_with, str_eq, views,
};

verus! {

/// A foreign key of `source_table` that points at the table being rendered.
pub struct BackRelation {
    pub source_table: String,
    pub fk_col: String,
    pub is_one_to_one: bool,
    pub relation_name: Option<String>,
}

/// A back relation as (source table, foreign-key column, one-to-one, relation name).
pub type BackRelationView = (Seq<char>, Seq<char>, bool, Option<Seq<char>>);

impl View for BackRelation {
    type V = BackRelationView;

    open spec fn view(&self) -> BackRelationView {
        (self.source_table@, self.fk_col@, self.is_one_to_one, opt_view(self.relation_name))
    }
}

/// The columns of the single-column foreign keys in `cs` that point at
/// `target`, in order (repeated when several keys share a column).
pub open spec fn fk_cols_to(cs: Seq<TableConstraint>, target: Seq<char>) -> Seq<Seq<char>>
    decreases cs.len(),
{
    if cs.len() == 0 {
        Seq::empty()
    } else {
        fk_cols_to(cs.drop_last(), target) + match cs.last() {
            TableConstraint::ForeignKey { columns, ref_table, .. } => if ref_table@ == target
                && columns@.len() == 1 {
                seq![columns@[0]@]
            } else {
                Seq::empty()
            },
            _ => Seq::empty(),
        }
    }
}

/// Some single-column unique constraint of `cs` is on `col`.
pub open spec fn has_single_unique(cs: Seq<TableConstraint>, col: Seq<char>) -> bool {
    exists|j: int| 0 <= j < cs.len() && single_unique_col(cs[j]) == Some(col)
}

/// The relation name shared by both sides of a named relation.
pub open spec fn relation_name_of(table: Seq<char>, fk_col: Seq<char>) -> Seq<char> {
    pascal(table) + pascal(relation_field(fk_col))
}

/// The back relations that one source table contributes towards `target`:
/// they are named when the source has several such keys or is `target` itself.
pub open spec fn source_back_rels(src: TableDef, target: Seq<char>) -> Seq<BackRelationView> {
    let fks = fk_cols_to(src.constraints@, target);
    let needs_name = fks.len() > 1 || src.name@ == target;
    fks.map_values(
        |c: Seq<char>|
            (
                src.name@,
                c,
                has_single_unique(src.constraints@, c),
                if needs_name {
                    Some(relation_name_of(src.name@, c))
                } else {
                    None
                },
            ),
    )
}

/// The back relations towards `target` over the whole schema, in order.
pub open spec fn back_rels(schema: Seq<TableDef>, target: Seq<char>) -> Seq<BackRelationView>
    decreases schema.len(),
{
    if schema.len() == 0 {
        Seq::empty()
    } else {
        back_rels(schema.drop_last(), target) + source_back_rels(schema.last(), target)
    }
}

/// The referenced table of a foreign key.
pub open spec fn fk_ref_table(c: TableConstraint) -> Seq<char> {
    match c {
        TableConstraint::ForeignKey { ref_table, .. } => ref_table@,
        _ => Seq::empty(),
    }
}

/// Some other foreign-key column of the table (a column other than `col`
/// whose kept foreign key is its last one) also references `ref_table`.
pub open spec fn multi_fk(cs: Seq<TableConstraint>, col: Seq<char>, ref_table: Seq<char>) -> bool {
    exists|j: int| 0 <= j < cs.len() && #[trigger] other_fk_to(cs, col, ref_table, j)
}

/// Constraint `j` is a single-column foreign key on a column other than
/// `col`, and the key kept for that column references `ref_table`.
pub open spec fn other_fk_to(cs: Seq<TableConstraint>, col: Seq<char>, ref_table: Seq<char>, j: int) -> bool {
    match single_fk_col(cs[j]) {
        Some(c2) => c2 != col && match last_fk_on(cs, c2) {
            Some(k) => fk_ref_table(cs[k]) == ref_table,
            None => false,
        },
        None => false,
    }
}

/// The relation name of the `one(...)` side of foreign-key column `col_name`
/// referencing `rt`: given when another foreign-key column references the same
/// table, or when the table references itself.
pub open spec fn forward_relation_name(t: TableDef, col_name: Seq<char>, rt: Seq<char>) -> Option<
    Seq<char>,
> {
    if multi_fk(t.constraints@, col_name, rt) || rt == t.name@ {
        Some(relation_name_of(t.name@, col_name))
    } else {
        None
    }
}

/// The `one(...)` line of a foreign-key column `col_name` whose key is `fk`.
pub open spec fn forward_line(t: TableDef, col_name: Seq<char>, fk: TableConstraint) -> Seq<char> {
    match fk {
        TableConstraint::ForeignKey { ref_table, ref_columns, .. } => {
            let rt = ref_table@;
            let col_camel = camel(col_name);
            let raw = relation_field(col_name);
            let field = if camel(raw) == col_camel {
                camel(raw + "_"@ + rt)
            } else {
                camel(raw)
            };
            let rtc = camel(rt);
            let opts = seq![
                "fields: ["@ + camel(t.name@) + "."@ + col_camel + "]"@,
                "references: ["@ + rtc + "."@ + camel(first_or_id(ref_columns@)) + "]"@,
            ] + match forward_relation_name(t, col_name, rt) {
                Some(n) => seq!["relationName: \""@ + n + "\""@],
                None => Seq::empty(),
            };
            "  "@ + field + ": one("@ + rtc + ", { "@ + join(opts, ", "@) + " }),"@
        },
        _ => Seq::empty(),
    }
}

/// The `one(...)` lines of the foreign-key columns among `cols`, in column order.
pub open spec fn forward_lines(t: TableDef, cols: Seq<ColumnDef>) -> Seq<Seq<char>>
    decreases cols.len(),
{
    if cols.len() == 0 {
        Seq::empty()
    } else {
        forward_lines(t, cols.drop_last()) + match last_fk_on(t.constraints@, cols.last().name@) {
            Some(j) => seq![forward_line(t, cols.last().name@, t.constraints@[j])],
            None => Seq::empty(),
        }
    }
}

/// The line of a back relation: `one(...)` when the foreign-key column is
/// unique, `many(...)` otherwise.
pub open spec fn back_line(br: BackRelationView) -> Seq<char> {
    let field = match br.3 {
        Some(_) => relation_field(br.1) + "_"@ + br.0,
        None => br.0,
    };
    let opts = match br.3 {
        Some(n) => ", { relationName: \""@ + n + "\" }"@,
        None => Seq::empty(),
    };
    "  "@ + camel(field) + ": "@ + (if br.2 {
        "one("@
    } else {
        "many("@
    }) + camel(br.0) + opts + "),"@
}

/// The back relations that the relations block of `t` lists: those of the
/// schema, or, with no schema, those of `t` towards itself.
pub open spec fn block_back_rels(t: TableDef, schema: Seq<TableDef>) -> Seq<BackRelationView> {
    if schema.len() == 0 {
        back_rels(seq![t], t.name@)
    } else {
        back_rels(schema, t.name@)
    }
}

/// The relation lines of `t`: forward relations, then back relations.
pub open spec fn relation_lines(t: TableDef, schema: Seq<TableDef>) -> Seq<Seq<char>> {
    forward_lines(t, t.columns@) + block_back_rels(t, schema).map_values(
        |b: BackRelationView| back_line(b),
    )
}

/// The `relations(...)` declaration of `t`, or `None` when it has no relations.
pub open spec fn relations_block(t: TableDef, schema: Seq<TableDef>) -> Option<Seq<char>> {
    let rel = relation_lines(t, schema);
    if rel.len() == 0 {
        None
    } else {
        Some(
            join(
                seq![
                    "export const "@ + camel(t.name@) + "Relations = relations("@ + camel(
                        t.name@,
                    ) + ", ({ one, many }) => ({"@,
                ] + rel + seq!["}));"@],
                "\n"@,
            ),
        )
    }
}

fn push_view_line(lines: &mut Vec<String>, l: String)
    ensures
        views(final(lines)@) == views(old(lines)@).push(l@),
{
    let ghost prev = views(lines@);
    let ghost lv = l@;
    lines.push(l);
    assert(views(lines@) =~= prev.push(lv));
}

fn has_single_unique_on(constraints: &Vec<TableConstraint>, col: &str) -> (res: bool)
    ensures
        res == has_single_unique(constraints@, col@),
{
    let mut i: usize = 0;
    while i < constraints.len()
        invariant
            i <= constraints.len(),
            forall|j: int| 0 <= j < i ==> single_unique_col(constraints@[j]) != Some(col@),
        decreases constraints.len() - i,
    {
        match &constraints[i] {
            TableConstraint::Unique { columns, .. } => {
                if columns.len() == 1 && str_eq(columns[0].as_str(), col) {
                    assert(single_unique_col(constraints@[i as int]) == Some(col@));
                    return true;
                }
            },
            _ => {},
        }
        i = i + 1;
    }
    false
}

fn fk_columns_to(constraints: &Vec<TableConstraint>, target: &str) -> (res: Vec<String>)
    ensures
        views(res@) == fk_cols_to(constraints@, target@),
{
    let ghost cs = constraints@;
    let mut out: Vec<String> = Vec::new();
    let mut i: usize = 0;
    while i < constraints.len()
        invariant
            i <= constraints.len(),
            cs == constraints@,
            views(out@) == fk_cols_to(cs.take(i as int), target@),
        decreases constraints.len() - i,
    {
        assert(cs.take(i + 1).drop_last() =~= cs.take(i as int));
        match &constraints[i] {
            TableConstraint::ForeignKey { columns, ref_table, .. } => {
                if str_eq(ref_table.as_str(), target) && columns.len() == 1 {
                    push_view_line(&mut out, columns[0].clone());
                }
            },
            _ => {},
        }
        assert(views(out@) =~= fk_cols_to(cs.take(i + 1), target@));
        i = i + 1;
    }
    assert(cs.take(cs.len() as int) =~= cs);
    out
}

fn relation_name(table: &str, fk_col: &str) -> (res: String)
    ensures
        res@ == relation_name_of(table@, fk_col@),
{
    let mut out = to_pascal_case(table);
    let field = infer_relation_field_name(fk_col);
    let p = to_pascal_case(field.as_str());
    push_str(&mut out, p.as_str());
    out
}

fn push_back_relation(out: &mut Vec<BackRelation>, b: BackRelation)
    ensures
        final(out)@.map_values(|r: BackRelation| r@) == old(out)@.map_values(
            |r: BackRelation| r@,
        ).push(b@),
{
    let ghost prev = out@.map_values(|r: BackRelation| r@);
    let ghost bv = b@;
    out.push(b);
    assert(out@.map_values(|r: BackRelation| r@) =~= prev.push(bv));
}

/// Appends the back relations that `source` contributes towards `target`.
fn collect_source_back_relations(out: &mut Vec<BackRelation>, target: &str, source: &TableDef)
    ensures
        final(out)@.map_values(|r: BackRelation| r@) == old(out)@.map_values(
            |r: BackRelation| r@,
        ) + source_back_rels(*source, target@),
{
    let ghost start = out@.map_values(|r: BackRelation| r@);
    let fks_to_target = fk_columns_to(&source.constraints, target);
    let ghost fks = views(fks_to_target@);
    let multi_fk = fks_to_target.len() > 1;
    let is_self_ref = str_eq(source.name.as_str(), target);
    let needs_name = multi_fk || is_self_ref;
    let mut i: usize = 0;
    while i < fks_to_target.len()
        invariant
            i <= fks_to_target.len(),
            fks == views(fks_to_target@),
            fks == fk_cols_to(source.constraints@, target@),
            needs_name == (fks.len() > 1 || source.name@ == target@),
            out@.map_values(|r: BackRelation| r@) == start + source_back_rels(
                *source,
                target@,
            ).take(i as int),
        decreases fks_to_target.len() - i,
    {
        let fk_col = fks_to_target[i].as_str();
        let is_unique = has_single_unique_on(&source.constraints, fk_col);
        let relation_name = if needs_name {
            Some(relation_name(source.name.as_str(), fk_col))
        } else {
            None
        };
        let b = BackRelation {
            source_table: source.name.clone(),
            fk_col: fks_to_target[i].clone(),
            is_one_to_one: is_unique,
            relation_name,
        };
        assert(b@ == source_back_rels(*source, target@)[i as int]);
        push_back_relation(out, b);
        assert(source_back_rels(*source, target@).take(i + 1) =~= source_back_rels(
            *source,
            target@,
        ).take(i as int).push(source_back_rels(*source, target@)[i as int]));
        i = i + 1;
    }
    assert(source_back_rels(*source, target@).take(fks_to_target.len() as int)
        =~= source_back_rels(*source, target@));
}

/// The back relations towards `target_table` over `schema`, in schema order.
pub fn collect_back_relations(target_table: &str, schema: &[TableDef]) -> (res: Vec<BackRelation>)
    ensures
        res@.map_values(|r: BackRelation| r@) == back_rels(schema@, target_table@),
{
    let mut result: Vec<BackRelation> = Vec::new();
    let mut i: usize = 0;
    while i < schema.len()
        invariant
            i <= schema.len(),
            result@.map_values(|r: BackRelation| r@) == back_rels(
                schema@.take(i as int),
                target_table@,
            ),
        decreases schema.len() - i,
    {
        assert(schema@.take(i + 1).drop_last() =~= schema@.take(i as int));
        collect_source_back_relations(&mut result, target_table, &schema[i]);
        i = i + 1;
    }
    assert(schema@.take(schema.len() as int) =~= schema@);
    result
}


fn has_other_fk_to(constraints: &Vec<TableConstraint>, col: &str, ref_table: &str) -> (res: bool)
    ensures
        res == multi_fk(constraints@, col@, ref_table@),
{
    let ghost cs = constraints@;
    let mut j: usize = 0;
    while j < constraints.len()
        invariant
            j <= constraints.len(),
            cs == constraints@,
            forall|i: int| 0 <= i < j ==> !other_fk_to(cs, col@, ref_table@, i),
        decreases constraints.len() - j,
    {
        match &constraints[j] {
            TableConstraint::ForeignKey { columns, .. } => {
                if columns.len() == 1 && !str_eq(columns[0].as_str(), col) {
                    proof {
                        lemma_last_fk_on(cs, columns@[0]@);
                    }
                    match fk_index(constraints, columns[0].as_str()) {
                        Some(k) => {
                            match &constraints[k] {
                                TableConstraint::ForeignKey { ref_table: rt2, .. } => {
                                    if str_eq(rt2.as_str(), ref_table) {
                                        assert(other_fk_to(cs, col@, ref_table@, j as int));
                                        return true;
                                    }
                                },
                                _ => {},
                            }
                        },
                        None => {},
                    }
                }
            },
            _ => {},
        }
        j = j + 1;
    }
    false
}

fn push_camel_to(out: &mut String, s: &str)
    ensures
        final(out)@ == old(out)@ + camel(s@),
{
    let c = to_camel_case(s);
    push_str(out, c.as_str());
}

fn render_forward_line(table: &TableDef, col_name: &str, fk: &TableConstraint) -> (res: String)
    ensures
        res@ == forward_line(*table, col_name@, *fk),
{
    match fk {
        TableConstraint::ForeignKey { ref_table, ref_columns, .. } => {
            let col_camel = to_camel_case(col_name);
            let rel_field_raw = infer_relation_field_name(col_name);
            let mut rel_field_camel = to_camel_case(rel_field_raw.as_str());
            if rel_field_camel == col_camel {
                let mut joined = rel_field_raw.clone();
                push_str(&mut joined, "_");
                push_str(&mut joined, ref_table.as_str());
                rel_field_camel = to_camel_case(joined.as_str());
            }
            let ref_table_camel = to_camel_case(ref_table.as_str());
            let multi = has_other_fk_to(&table.constraints, col_name, ref_table.as_str());
            let is_self_ref = str_eq(ref_table.as_str(), table.name.as_str());
            let needs_name = multi || is_self_ref;
            let mut opts: Vec<String> = Vec::new();
            let mut fields = String::from_str("fields: [");
            push_camel_to(&mut fields, table.name.as_str());
            push_str(&mut fields, ".");
            push_str(&mut fields, col_camel.as_str());
            push_str(&mut fields, "]");
            push_view_line(&mut opts, fields);
            let mut refs = String::from_str("references: [");
            push_str(&mut refs, ref_table_camel.as_str());
            push_str(&mut refs, ".");
            if ref_columns.len() > 0 {
                push_camel_to(&mut refs, ref_columns[0].as_str());
            } else {
                push_camel_to(&mut refs, "id");
            }
            push_str(&mut refs, "]");
            push_view_line(&mut opts, refs);
            if needs_name {
                let mut r = String::from_str("relationName: \"");
                let n = relation_name(table.name.as_str(), col_name);
                push_str(&mut r, n.as_str());
                push_str(&mut r, "\"");
                push_view_line(&mut opts, r);
            }
            let mut out = String::from_str("  ");
            push_str(&mut out, rel_field_camel.as_str());
            push_str(&mut out, ": one(");
            push_str(&mut out, ref_table_camel.as_str());
            push_str(&mut out, ", { ");
            let j = join_strings(&opts, ", ");
            push_str(&mut out, j.as_str());
            push_str(&mut out, " }),");
            proof {
                let rt = ref_table@;
                let raw = relation_field(col_name@);
                let expected = seq![
                    "fields: ["@ + camel(table.name@) + "."@ + camel(col_name@) + "]"@,
                    "references: ["@ + camel(rt) + "."@ + camel(first_or_id(ref_columns@)) + "]"@,
                ] + match forward_relation_name(*table, col_name@, rt) {
                    Some(n) => seq!["relationName: \""@ + n + "\""@],
                    None => Seq::empty(),
                };
                assert(views(opts@) =~= expected);
            }
            out
        },
        _ => String::new(),
    }
}

fn render_back_line(br: &BackRelation) -> (res: String)
    ensures
        res@ == back_line(br@),
{
    let source_camel = to_camel_case(br.source_table.as_str());
    let field_name = match &br.relation_name {
        Some(_) => {
            let mut f = infer_relation_field_name(br.fk_col.as_str());
            push_str(&mut f, "_");
            push_str(&mut f, br.source_table.as_str());
            f
        },
        None => br.source_table.clone(),
    };
    let field_name_camel = to_camel_case(field_name.as_str());
    let mut out = String::from_str("  ");
    push_str(&mut out, field_name_camel.as_str());
    push_str(&mut out, ": ");
    if br.is_one_to_one {
        push_str(&mut out, "one(");
    } else {
        push_str(&mut out, "many(");
    }
    push_str(&mut out, source_camel.as_str());
    match &br.relation_name {
        Some(rel_name) => {
            push_str(&mut out, ", { relationName: \"");
            push_str(&mut out, rel_name.as_str());
            push_str(&mut out, "\" }");
        },
        None => {},
    }
    push_str(&mut out, "),");
    out
}

/// Renders a `relations(...)` export block, or `None` if the table has no
/// relations. With an empty schema, the table's references to itself still
/// give back relations, so that a self-referencing `one(...)` has its
/// reciprocal.
pub fn render_relations_block(table: &TableDef, schema: &[TableDef]) -> (res: Option<String>)
    ensures
        opt_view(res) == relations_block(*table, schema@),
{
    let ghost t = *table;
    let table_camel = to_camel_case(table.name.as_str());
    let mut back: Vec<BackRelation> = Vec::new();
    if schema.len() == 0 {
        collect_source_back_relations(&mut back, table.name.as_str(), table);
        assert(seq![t].drop_last() =~= Seq::<TableDef>::empty());
        let ghost one = seq![t];
        assert(one.len() == 1);
        assert(one.last() == t);
        assert(back_rels(one.drop_last(), t.name@) =~= Seq::<BackRelationView>::empty());
        assert(back_rels(one, t.name@) =~= source_back_rels(t, t.name@));
        assert(back@.map_values(|r: BackRelation| r@) =~= source_back_rels(t, t.name@));
    } else {
        back = collect_back_relations(table.name.as_str(), schema);
    }
    let ghost bv = back@.map_values(|r: BackRelation| r@);
    assert(bv == block_back_rels(t, schema@));
    let mut rel_lines: Vec<String> = Vec::new();
    let mut i: usize = 0;
    while i < table.columns.len()
        invariant
            i <= table.columns.len(),
            t == *table,
            views(rel_lines@) == forward_lines(t, t.columns@.take(i as int)),
        decreases table.columns.len() - i,
    {
        assert(t.columns@.take(i + 1).drop_last() =~= t.columns@.take(i as int));
        let col_name = table.columns[i].name.as_str();
        match fk_index(&table.constraints, col_name) {
            Some(j) => {
                let l = render_forward_line(table, col_name, &table.constraints[j]);
                push_view_line(&mut rel_lines, l);
            },
            None => {},
        }
        i = i + 1;
    }
    assert(t.columns@.take(t.columns@.len() as int) =~= t.columns@);
    let ghost fwd = views(rel_lines@);
    let mut k: usize = 0;
    while k < back.len()
        invariant
            k <= back.len(),
            bv == back@.map_values(|r: BackRelation| r@),
            views(rel_lines@) == fwd + bv.take(k as int).map_values(
                |b: BackRelationView| back_line(b),
            ),
        decreases back.len() - k,
    {
        let l = render_back_line(&back[k]);
        push_view_line(&mut rel_lines, l);
        assert(views(rel_lines@) =~= fwd + bv.take(k + 1).map_values(
            |b: BackRelationView| back_line(b),
        ));
        k = k + 1;
    }
    assert(bv.take(bv.len() as int) =~= bv);
    assert(views(rel_lines@) == relation_lines(t, schema@));
    if rel_lines.len() == 0 {
        return None;
    }
    let mut lines: Vec<String> = Vec::new();
    let mut header = String::from_str("export const ");
    push_str(&mut header, table_camel.as_str());
    push_str(&mut header, "Relations = relations(");
    push_str(&mut header, table_camel.as_str());
    push_str(&mut header, ", ({ one, many }) => ({");
    push_view_line(&mut lines, header);
    let ghost head = views(lines@);
    let ghost rl = views(rel_lines@);
    lines.append(&mut rel_lines);
    assert(views(lines@) =~= head + rl);
    push_view_line(&mut lines, String::from_str("}));"));
    assert(views(lines@) =~= seq![
        "export const "@ + camel(t.name@) + "Relations = relations("@ + camel(t.name@)
            + ", ({ one, many }) => ({"@,
    ] + relation_lines(t, schema@) + seq!["}));"@]);
    Some(join_strings(&lines, "\n"))
}


/// The table that kept foreign key of column `col` references is `target`.
pub open spec fn fk_of_col_targets(cs: Seq<TableConstraint>, col: Seq<char>, target: Seq<char>) -> bool {
    match last_fk_on(cs, col) {
        Some(j) => fk_ref_table(cs[j]) == target,
        None => false,
    }
}

proof fn lemma_fk_cols_to_has(cs: Seq<TableConstraint>, target: Seq<char>, j: int)
    requires
        0 <= j < cs.len(),
        cs[j] is ForeignKey,
        fk_ref_table(cs[j]) == target,
        single_fk_col(cs[j]) is Some,
    ensures
        fk_cols_to(cs, target).contains(single_fk_col(cs[j]).unwrap()),
    decreases cs.len(),
{
    let c = single_fk_col(cs[j]).unwrap();
    if j == cs.len() - 1 {
        let l = fk_cols_to(cs, target);
        assert(l[l.len() - 1] == c);
    } else {
        lemma_fk_cols_to_has(cs.drop_last(), target, j);
        let prev = fk_cols_to(cs.drop_last(), target);
        let k = choose|k: int| 0 <= k < prev.len() && prev[k] == c;
        assert(fk_cols_to(cs, target)[k] == c);
    }
}

proof fn lemma_back_rels_include_source(schema: Seq<TableDef>, target: Seq<char>, m: int, i: int)
    requires
        0 <= m < schema.len(),
        0 <= i < source_back_rels(schema[m], target).len(),
    ensures
        back_rels(schema, target).contains(source_back_rels(schema[m], target)[i]),
    decreases schema.len(),
{
    let x = source_back_rels(schema[m], target)[i];
    if m == schema.len() - 1 {
        let prev = back_rels(schema.drop_last(), target);
        assert(back_rels(schema, target)[prev.len() + i] == x);
    } else {
        lemma_back_rels_include_source(schema.drop_last(), target, m, i);
        assert(schema.drop_last()[m] == schema[m]);
        let prev = back_rels(schema.drop_last(), target);
        let k = choose|k: int| 0 <= k < prev.len() && prev[k] == x;
        assert(back_rels(schema, target)[k] == x);
    }
}

/// A foreign-key column that references its own table gets a named `one(...)`
/// relation, and the same table's relations block, rendered alone or within a
/// schema that holds it, lists a back relation over that column with the same
/// relation name: each side of a self-reference has its reciprocal.
pub proof fn lemma_self_reference_reciprocal(t: TableDef, schema: Seq<TableDef>, col: Seq<char>)
    requires
        fk_of_col_targets(t.constraints@, col, t.name@),
        schema.len() == 0 || schema.contains(t),
    ensures
        forward_relation_name(t, col, t.name@) == Some(relation_name_of(t.name@, col)),
        block_back_rels(t, schema).contains(
            (
                t.name@,
                col,
                has_single_unique(t.constraints@, col),
                Some(relation_name_of(t.name@, col)),
            ),
        ),
{
    let cs = t.constraints@;
    let j = last_fk_on(cs, col).unwrap();
    lemma_last_fk_on(cs, col);
    lemma_fk_cols_to_has(cs, t.name@, j);
    let fks = fk_cols_to(cs, t.name@);
    let i = choose|i: int| 0 <= i < fks.len() && fks[i] == col;
    let eff = if schema.len() == 0 {
        seq![t]
    } else {
        schema
    };
    let m = if schema.len() == 0 {
        0
    } else {
        choose|m: int| 0 <= m < schema.len() && schema[m] == t
    };
    assert(eff[m] == t);
    lemma_back_rels_include_source(eff, t.name@, m, i);
}


/// When the `one(...)` side of a foreign-key column names its relation, the
/// referenced table's relations block, rendered with a schema that holds the
/// referencing table, lists the back relation over that column under the
/// same name.
pub proof fn lemma_named_relation_reciprocal(
    src: TableDef,
    schema: Seq<TableDef>,
    col: Seq<char>,
    target: TableDef,
)
    requires
        fk_of_col_targets(src.constraints@, col, target.name@),
        forward_relation_name(src, col, target.name@) is Some,
        schema.contains(src),
    ensures
        block_back_rels(target, schema).contains(
            (
                src.name@,
                col,
                has_single_unique(src.constraints@, col),
                forward_relation_name(src, col, target.name@),
            ),
        ),
{
    let cs = src.constraints@;
    let tn = target.name@;
    let j = last_fk_on(cs, col).unwrap();
    lemma_last_fk_on(cs, col);
    lemma_fk_cols_to_has(cs, tn, j);
    let fks = fk_cols_to(cs, tn);
    let i = choose|i: int| 0 <= i < fks.len() && fks[i] == col;
    if src.name@ != tn {
        assert(multi_fk(cs, col, tn));
        let w = choose|w: int| 0 <= w < cs.len() && #[trigger] other_fk_to(cs, col, tn, w);
        let c2 = single_fk_col(cs[w]).unwrap();
        let k = last_fk_on(cs, c2).unwrap();
        lemma_last_fk_on(cs, c2);
        lemma_fk_cols_to_has(cs, tn, k);
        let i2 = choose|i2: int| 0 <= i2 < fks.len() && fks[i2] == c2;
        assert(i2 != i);
        assert(fks.len() > 1);
    }
    let m = choose|m: int| 0 <= m < schema.len() && schema[m] == src;
    assert(source_back_rels(schema[m], tn)[i] == (
        src.name@,
        col,
        has_single_unique(cs, col),
        forward_relation_name(src, col, tn),
    ));
    lemma_back_rels_include_source(schema, tn, m, i);
}

/// No column of `cs` carries two single-column foreign keys.
pub open spec fn fk_columns_distinct(cs: Seq<TableConstraint>) -> bool {
    forall|a: int, b: int|
        #![trigger single_fk_col(cs[a]), single_fk_col(cs[b])]
        0 <= a < cs.len() && 0 <= b < cs.len() && a != b && single_fk_col(cs[a]) is Some
            ==> single_fk_col(cs[a]) != single_fk_col(cs[b])
}

/// `c` is a single-column foreign key referencing `target`.
pub open spec fn fk_targets(c: TableConstraint, target: Seq<char>) -> bool {
    single_fk_col(c) is Some && fk_ref_table(c) == target
}

proof fn lemma_fk_cols_to_nonempty(cs: Seq<TableConstraint>, target: Seq<char>)
    requires
        fk_cols_to(cs, target).len() > 0,
    ensures
        exists|j: int| 0 <= j < cs.len() && #[trigger] fk_targets(cs[j], target),
    decreases cs.len(),
{
    if fk_cols_to(cs.drop_last(), target).len() > 0 {
        lemma_fk_cols_to_nonempty(cs.drop_last(), target);
        let j = choose|j: int| 0 <= j < cs.drop_last().len() && #[trigger] fk_targets(cs.drop_last()[j], target);
        assert(cs[j] == cs.drop_last()[j]);
        assert(fk_targets(cs[j], target));
    } else {
        assert(fk_targets(cs[cs.len() - 1], target));
    }
}

proof fn lemma_fk_cols_to_two(cs: Seq<TableConstraint>, target: Seq<char>)
    requires
        fk_cols_to(cs, target).len() > 1,
    ensures
        exists|a: int, b: int|
            0 <= a < b < cs.len() && #[trigger] fk_targets(cs[a], target) && #[trigger] fk_targets(
                cs[b],
                target,
            ),
    decreases cs.len(),
{
    let prev = fk_cols_to(cs.drop_last(), target);
    if prev.len() > 1 {
        lemma_fk_cols_to_two(cs.drop_last(), target);
        let (a, b) = choose|a: int, b: int|
            0 <= a < b < cs.drop_last().len() && #[trigger] fk_targets(cs.drop_last()[a], target)
                && #[trigger] fk_targets(cs.drop_last()[b], target);
        assert(cs[a] == cs.drop_last()[a] && cs[b] == cs.drop_last()[b]);
        assert(fk_targets(cs[a], target) && fk_targets(cs[b], target));
    } else {
        lemma_fk_cols_to_nonempty(cs.drop_last(), target);
        let a = choose|a: int| 0 <= a < cs.drop_last().len() && #[trigger] fk_targets(cs.drop_last()[a], target);
        assert(cs[a] == cs.drop_last()[a]);
        assert(fk_targets(cs[a], target));
        assert(fk_targets(cs[cs.len() - 1], target));
    }
}

proof fn lemma_last_fk_on_found(cs: Seq<TableConstraint>, col: Seq<char>, w: int)
    requires
        0 <= w < cs.len(),
        single_fk_col(cs[w]) == Some(col),
        fk_columns_distinct(cs),
    ensures
        last_fk_on(cs, col) == Some(w),
    decreases cs.len(),
{
    if w != cs.len() - 1 {
        assert(single_fk_col(cs[w]) != single_fk_col(cs[cs.len() - 1]));
        let d = cs.drop_last();
        assert(fk_columns_distinct(d)) by {
            assert forall|a: int, b: int|
                0 <= a < d.len() && 0 <= b < d.len() && a != b && (#[trigger] single_fk_col(d[a])) is Some
                    implies single_fk_col(d[a]) != #[trigger] single_fk_col(d[b]) by {
                assert(d[a] == cs[a] && d[b] == cs[b]);
                assert(single_fk_col(cs[a]) != single_fk_col(cs[b]));
            }
        }
        assert(d[w] == cs[w]);
        lemma_last_fk_on_found(d, col, w);
    }
}

proof fn lemma_forward_lines_has(t: TableDef, cols: Seq<ColumnDef>, ci: int)
    requires
        0 <= ci < cols.len(),
        last_fk_on(t.constraints@, cols[ci].name@) is Some,
    ensures
        forward_lines(t, cols).contains(
            forward_line(
                t,
                cols[ci].name@,
                t.constraints@[last_fk_on(t.constraints@, cols[ci].name@).unwrap()],
            ),
        ),
    decreases cols.len(),
{
    let prev = forward_lines(t, cols.drop_last());
    if ci == cols.len() - 1 {
        assert(forward_lines(t, cols)[prev.len() as int] == forward_line(
            t,
            cols[ci].name@,
            t.constraints@[last_fk_on(t.constraints@, cols[ci].name@).unwrap()],
        ));
    } else {
        assert(cols.drop_last()[ci] == cols[ci]);
        lemma_forward_lines_has(t, cols.drop_last(), ci);
        let x = forward_line(
            t,
            cols[ci].name@,
            t.constraints@[last_fk_on(t.constraints@, cols[ci].name@).unwrap()],
        );
        let k = choose|k: int| 0 <= k < prev.len() && prev[k] == x;
        assert(forward_lines(t, cols)[k] == x);
    }
}

/// The two sides of a relation agree on its name. Take a foreign-key column
/// `col` of `src` whose kept key references `target`, where no column of `src`
/// carries two single-column foreign keys, and a schema that holds `src`.
/// Then `src`'s relations block has a `one(...)` line for `col` (when `col` is
/// one of its columns), `target`'s block lists the back relation over `col`
/// with the same relation name or the same absence of one, and both carry a
/// name, `relation_name_of(src, col)`, exactly when `src` has several
/// single-column foreign keys to `target` or is `target` itself.
pub proof fn lemma_relation_names_agree(
    src: TableDef,
    schema: Seq<TableDef>,
    col: Seq<char>,
    target: TableDef,
)
    requires
        fk_of_col_targets(src.constraints@, col, target.name@),
        fk_columns_distinct(src.constraints@),
        schema.contains(src),
    ensures
        (exists|ci: int| 0 <= ci < src.columns@.len() && #[trigger] src.columns@[ci].name@ == col)
            ==> forward_lines(src, src.columns@).contains(
            forward_line(src, col, src.constraints@[last_fk_on(src.constraints@, col).unwrap()]),
        ),
        block_back_rels(target, schema).contains(
            (
                src.name@,
                col,
                has_single_unique(src.constraints@, col),
                forward_relation_name(src, col, target.name@),
            ),
        ),
        (forward_relation_name(src, col, target.name@) is Some) == (fk_cols_to(
            src.constraints@,
            target.name@,
        ).len() > 1 || src.name@ == target.name@),
        forward_relation_name(src, col, target.name@) is Some ==> forward_relation_name(
            src,
            col,
            target.name@,
        ) == Some(relation_name_of(src.name@, col)),
{
    let cs = src.constraints@;
    let tn = target.name@;
    let j = last_fk_on(cs, col).unwrap();
    lemma_last_fk_on(cs, col);
    lemma_fk_cols_to_has(cs, tn, j);
    let fks = fk_cols_to(cs, tn);
    let i = choose|i: int| 0 <= i < fks.len() && fks[i] == col;
    if exists|ci: int| 0 <= ci < src.columns@.len() && #[trigger] src.columns@[ci].name@ == col {
        let ci = choose|ci: int| 0 <= ci < src.columns@.len() && #[trigger] src.columns@[ci].name@ == col;
        lemma_forward_lines_has(src, src.columns@, ci);
    }
    if multi_fk(cs, col, tn) {
        let w = choose|w: int| 0 <= w < cs.len() && #[trigger] other_fk_to(cs, col, tn, w);
        let c2 = single_fk_col(cs[w]).unwrap();
        let k = last_fk_on(cs, c2).unwrap();
        lemma_last_fk_on(cs, c2);
        lemma_fk_cols_to_has(cs, tn, k);
        let i2 = choose|i2: int| 0 <= i2 < fks.len() && fks[i2] == c2;
        assert(i2 != i);
    }
    if fks.len() > 1 {
        lemma_fk_cols_to_two(cs, tn);
        let (a, b) = choose|a: int, b: int|
            0 <= a < b < cs.len() && #[trigger] fk_targets(cs[a], tn) && #[trigger] fk_targets(cs[b], tn);
        assert(single_fk_col(cs[a]) != single_fk_col(cs[b]));
        let w = if single_fk_col(cs[a]) != Some(col) {
            a
        } else {
            b
        };
        let c2 = single_fk_col(cs[w]).unwrap();
        lemma_last_fk_on_found(cs, c2, w);
        assert(other_fk_to(cs, col, tn, w));
        assert(multi_fk(cs, col, tn));
    }
    let m = choose|m: int| 0 <= m < schema.len() && schema[m] == src;
    assert(source_back_rels(schema[m], tn)[i] == (
        src.name@,
        col,
        has_single_unique(cs, col),
        forward_relation_name(src, col, tn),
    ));
    lemma_back_rels_include_source(schema, tn, m, i);
}

proof fn lemma_join_first_two(e0: Seq<char>, e1: Seq<char>, extra: Seq<Seq<char>>, sep: Seq<char>)
    ensures
        contains(join(seq![e0, e1] + extra, sep), e0),
        contains(join(seq![e0, e1] + extra, sep), e1),
{
    let opts = seq![e0, e1] + extra;
    assert(opts[0] == e0);
    assert(opts[1] == e1);
    lemma_join_contains(opts, sep, 0);
    lemma_join_contains(opts, sep, 1);
}

proof fn lemma_prefix_occurs(p: Seq<char>, rest: Seq<char>)
    ensures
        contains(p + rest, p),
{
    lemma_contains_middle(Seq::empty(), p, rest);
    assert(Seq::<char>::empty() + p + rest =~= p + rest);
}

proof fn lemma_option_entries_occur(
    pre: Seq<char>,
    e0: Seq<char>,
    r1: Seq<char>,
    x: Seq<char>,
    extra: Seq<Seq<char>>,
    sep: Seq<char>,
    tail: Seq<char>,
)
    ensures
        contains(pre + join(seq![e0, r1 + x] + extra, sep) + tail, e0),
        contains(pre + join(seq![e0, r1 + x] + extra, sep) + tail, r1),
{
    let e1 = r1 + x;
    let j = join(seq![e0, e1] + extra, sep);
    lemma_join_first_two(e0, e1, extra, sep);
    lemma_contains_within(pre, j, tail, e0);
    lemma_prefix_occurs(r1, x);
    lemma_contains_trans(j, e1, r1);
    lemma_contains_within(pre, j, tail, r1);
}

proof fn lemma_forward_line_names(t: TableDef, col: Seq<char>, fk: TableConstraint)
    requires
        fk is ForeignKey,
    ensures
        contains(forward_line(t, col, fk), "fields: ["@ + camel(t.name@) + "."@ + camel(col) + "]"@),
        contains(forward_line(t, col, fk), "references: ["@ + camel(fk->ref_table@) + "."@),
{
    let rt = fk->ref_table@;
    let col_camel = camel(col);
    let raw = relation_field(col);
    let field = if camel(raw) == col_camel {
        camel(raw + "_"@ + rt)
    } else {
        camel(raw)
    };
    let rtc = camel(rt);
    let e0 = "fields: ["@ + camel(t.name@) + "."@ + col_camel + "]"@;
    let rc = camel(first_or_id(fk->ref_columns@));
    let r1 = "references: ["@ + rtc + "."@;
    let extra = match forward_relation_name(t, col, rt) {
        Some(n) => seq!["relationName: \""@ + n + "\""@],
        None => Seq::<Seq<char>>::empty(),
    };
    let pre = "  "@ + field + ": one("@ + rtc + ", { "@;
    assert(r1 + rc + "]"@ =~= r1 + (rc + "]"@));
    assert(forward_line(t, col, fk) == pre + join(seq![e0, r1 + (rc + "]"@)] + extra, ", "@)
        + " }),"@);
    lemma_option_entries_occur(pre, e0, r1, rc + "]"@, extra, ", "@, " }),"@);
}

/// A table is referred to by one identifier throughout: the const that its
/// `pgTable` declaration exports (the camelCase table name) is the one that
/// heads its relations declaration and that every `one(...)` line of the
/// table names in its `fields: [...]` entry; the referenced table is named
/// in the `references: [...]` entry by its own camelCase const.
pub proof fn lemma_table_identifier_shared(
    t: TableDef,
    schema: Seq<TableDef>,
    col: Seq<char>,
    fk: TableConstraint,
)
    requires
        fk is ForeignKey,
    ensures
        contains(table_block(t), "export const "@ + camel(t.name@) + " = pgTable(\""@),
        relations_block(t, schema) matches Some(b) ==> starts_with(
            b,
            "export const "@ + camel(t.name@) + "Relations = relations("@ + camel(t.name@) + ", "@,
        ),
        contains(forward_line(t, col, fk), "fields: ["@ + camel(t.name@) + "."@ + camel(col) + "]"@),
        contains(forward_line(t, col, fk), "references: ["@ + camel(fk->ref_table@) + "."@),
{
    let id = camel(t.name@);
    // The table declaration.
    let lines = table_lines(t);
    let k = description_lines(t.description).len() as int;
    let decl = "export const "@ + id + " = pgTable(\""@ + t.name@ + "\", {"@;
    assert(lines[k] == decl);
    lemma_join_contains(lines, "\n"@, k);
    let p = "export const "@ + id + " = pgTable(\""@;
    lemma_contains_middle(Seq::empty(), p, t.name@ + "\", {"@);
    assert(Seq::<char>::empty() + p + (t.name@ + "\", {"@) =~= decl);
    lemma_contains_trans(table_block(t), decl, p);
    // The relations header.
    let rel = relation_lines(t, schema);
    if rel.len() > 0 {
        let header = "export const "@ + id + "Relations = relations("@ + id + ", ({ one, many }) => ({"@;
        let parts = seq![header] + rel + seq!["}));"@];
        lemma_join_head(parts, "\n"@);
        let b = join(parts, "\n"@);
        let h = "export const "@ + id + "Relations = relations("@ + id + ", "@;
        reveal_strlit(", ({ one, many }) => ({");
        reveal_strlit(", ");
        assert(header.subrange(0, h.len() as int) =~= h);
        assert(b.subrange(0, h.len() as int) =~= header.subrange(0, h.len() as int));
    }
    lemma_forward_line_names(t, col, fk);
}

} // verus!
