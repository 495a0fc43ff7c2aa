//! Column types: the `pg-core` constructor a column uses, and the call that builds it.

use vstd::prelude::*;

use crate::enums::{camel, push_str, to_camel_case};
use crate::model::{ColumnType, ComplexColumnType, EnumValues, SimpleColumnType};
use crate::text::{decimal, push_decimal, starts_with};

verus! {

/// The column constructors of `drizzle-orm/pg-core` that a column can use,
/// in the alphabetical order of their names.
#[derive(Clone, Copy, Debug, PartialEq, Eq, Structural)]
pub enum PgCoreType {
    Bigint,
    Bigserial,
    Boolean,
    Char,
    Date,
    DoublePrecision,
    Integer,
    Jsonb,
    Numeric,
    Real,
    Serial,
    Smallint,
    Text,
    Time,
    Timestamp,
    Uuid,
    Varchar,
}

/// All constructors, in the alphabetical order of their names.
pub open spec fn all_pg_core_types() -> Seq<PgCoreType> {
    seq![
        PgCoreType::Bigint,
        PgCoreType::Bigserial,
        PgCoreType::Boolean,
        PgCoreType::Char,
        PgCoreType::Date,
        PgCoreType::DoublePrecision,
        PgCoreType::Integer,
        PgCoreType::Jsonb,
        PgCoreType::Numeric,
        PgCoreType::Real,
        PgCoreType::Serial,
        PgCoreType::Smallint,
        PgCoreType::Text,
        PgCoreType::Time,
        PgCoreType::Timestamp,
        PgCoreType::Uuid,
        PgCoreType::Varchar,
    ]
}

/// The name of a constructor.
pub open spec fn pg_name(k: PgCoreType) -> Seq<char> {
    match k {
        PgCoreType::Bigint => "bigint"@,
        PgCoreType::Bigserial => "bigserial"@,
        PgCoreType::Boolean => "boolean"@,
        PgCoreType::Char => "char"@,
        PgCoreType::Date => "date"@,
        PgCoreType::DoublePrecision => "doublePrecision"@,
        PgCoreType::Integer => "integer"@,
        PgCoreType::Jsonb => "jsonb"@,
        PgCoreType::Numeric => "numeric"@,
        PgCoreType::Real => "real"@,
        PgCoreType::Serial => "serial"@,
        PgCoreType::Smallint => "smallint"@,
        PgCoreType::Text => "text"@,
        PgCoreType::Time => "time"@,
        PgCoreType::Timestamp => "timestamp"@,
        PgCoreType::Uuid => "uuid"@,
        PgCoreType::Varchar => "varchar"@,
    }
}

/// The name of a constructor.
pub fn pg_core_type_name(k: PgCoreType) -> (res: &'static str)
    ensures
        res@ == pg_name(k),
{
    match k {
        PgCoreType::Bigint => "bigint",
        PgCoreType::Bigserial => "bigserial",
        PgCoreType::Boolean => "boolean",
        PgCoreType::Char => "char",
        PgCoreType::Date => "date",
        PgCoreType::DoublePrecision => "doublePrecision",
        PgCoreType::Integer => "integer",
        PgCoreType::Jsonb => "jsonb",
        PgCoreType::Numeric => "numeric",
        PgCoreType::Real => "real",
        PgCoreType::Serial => "serial",
        PgCoreType::Smallint => "smallint",
        PgCoreType::Text => "text",
        PgCoreType::Time => "time",
        PgCoreType::Timestamp => "timestamp",
        PgCoreType::Uuid => "uuid",
        PgCoreType::Varchar => "varchar",
    }
}

/// The `pg-core` constructor of a column type, or `None` for a string enum,
/// whose constructor is the `pgEnum` declared for it.
pub open spec fn core_type_of(ty: ColumnType, is_auto_increment: bool) -> Option<PgCoreType> {
    match ty {
        ColumnType::Simple(s) => Some(
            match s {
                SimpleColumnType::SmallInt => PgCoreType::Smallint,
                SimpleColumnType::Integer => if is_auto_increment {
                    PgCoreType::Serial
                } else {
                    PgCoreType::Integer
                },
                SimpleColumnType::BigInt => if is_auto_increment {
                    PgCoreType::Bigserial
                } else {
                    PgCoreType::Bigint
                },
                SimpleColumnType::Real => PgCoreType::Real,
                SimpleColumnType::DoublePrecision => PgCoreType::DoublePrecision,
                SimpleColumnType::Boolean => PgCoreType::Boolean,
                SimpleColumnType::Date => PgCoreType::Date,
                SimpleColumnType::Time => PgCoreType::Time,
                SimpleColumnType::Timestamp => PgCoreType::Timestamp,
                SimpleColumnType::Timestamptz => PgCoreType::Timestamp,
                SimpleColumnType::Uuid => PgCoreType::Uuid,
                SimpleColumnType::Json => PgCoreType::Jsonb,
                _ => PgCoreType::Text,
            },
        ),
        ColumnType::Complex(c) => match c {
            ComplexColumnType::Varchar { .. } => Some(PgCoreType::Varchar),
            ComplexColumnType::Char { .. } => Some(PgCoreType::Char),
            ComplexColumnType::Numeric { .. } => Some(PgCoreType::Numeric),
            ComplexColumnType::Enum { values, .. } => match values {
                EnumValues::Integer(_) => Some(PgCoreType::Integer),
                EnumValues::String(_) => None,
            },
            _ => Some(PgCoreType::Text),
        },
    }
}

/// The constructor name of a column type: the `pg-core` function, or the
/// camelCase name of a string enum's `pgEnum` constant.
pub open spec fn col_symbol(ty: ColumnType, is_auto_increment: bool) -> Seq<char> {
    match core_type_of(ty, is_auto_increment) {
        Some(k) => pg_name(k),
        None => match ty {
            ColumnType::Complex(ComplexColumnType::Enum { name, .. }) => camel(name@),
            _ => Seq::empty(),
        },
    }
}

/// The `pg-core` constructor of a column type (`None` for a string enum).
pub fn core_type(ty: &ColumnType, is_auto_increment: bool) -> (res: Option<PgCoreType>)
    ensures
        res == core_type_of(*ty, is_auto_increment),
{
    match ty {
        ColumnType::Simple(s) => Some(
            match s {
                SimpleColumnType::SmallInt => PgCoreType::Smallint,
                SimpleColumnType::Integer => if is_auto_increment {
                    PgCoreType::Serial
                } else {
                    PgCoreType::Integer
                },
                SimpleColumnType::BigInt => if is_auto_increment {
                    PgCoreType::Bigserial
                } else {
                    PgCoreType::Bigint
                },
                SimpleColumnType::Real => PgCoreType::Real,
                SimpleColumnType::DoublePrecision => PgCoreType::DoublePrecision,
                SimpleColumnType::Boolean => PgCoreType::Boolean,
                SimpleColumnType::Date => PgCoreType::Date,
                SimpleColumnType::Time => PgCoreType::Time,
                SimpleColumnType::Timestamp => PgCoreType::Timestamp,
                SimpleColumnType::Timestamptz => PgCoreType::Timestamp,
                SimpleColumnType::Uuid => PgCoreType::Uuid,
                SimpleColumnType::Json => PgCoreType::Jsonb,
                _ => PgCoreType::Text,
            },
        ),
        ColumnType::Complex(c) => match c {
            ComplexColumnType::Varchar { .. } => Some(PgCoreType::Varchar),
            ComplexColumnType::Char { .. } => Some(PgCoreType::Char),
            ComplexColumnType::Numeric { .. } => Some(PgCoreType::Numeric),
            ComplexColumnType::Enum { values, .. } => match values {
                EnumValues::Integer(_) => Some(PgCoreType::Integer),
                EnumValues::String(_) => None,
            },
            _ => Some(PgCoreType::Text),
        },
    }
}

/// The constructor name of a column type, as it is collected for the
/// `pg-core` import list (string enums give their `pgEnum` constant name).
pub fn col_type_symbol(ty: &ColumnType, is_auto_increment: bool) -> (res: String)
    ensures
        res@ == col_symbol(*ty, is_auto_increment),
{
    match core_type(ty, is_auto_increment) {
        Some(k) => String::from_str(pg_core_type_name(k)),
        None => match ty {
            ColumnType::Complex(ComplexColumnType::Enum { name, .. }) => to_camel_case(
                name.as_str(),
            ),
            _ => String::new(),
        },
    }
}

/// The full column constructor call of a column, e.g.
/// `varchar("email", { length: 255 })`.
pub open spec fn col_type_call(ty: ColumnType, col: Seq<char>, is_auto_increment: bool) -> Seq<
    char,
> {
    match ty {
        ColumnType::Simple(s) => match s {
            SimpleColumnType::SmallInt => "smallint(\""@ + col + "\")"@,
            SimpleColumnType::Integer => if is_auto_increment {
                "serial(\""@ + col + "\")"@
            } else {
                "integer(\""@ + col + "\")"@
            },
            SimpleColumnType::BigInt => if is_auto_increment {
                "bigserial(\""@ + col + "\", { mode: \"number\" })"@
            } else {
                "bigint(\""@ + col + "\", { mode: \"number\" })"@
            },
            SimpleColumnType::Real => "real(\""@ + col + "\")"@,
            SimpleColumnType::DoublePrecision => "doublePrecision(\""@ + col + "\")"@,
            SimpleColumnType::Boolean => "boolean(\""@ + col + "\")"@,
            SimpleColumnType::Date => "date(\""@ + col + "\")"@,
            SimpleColumnType::Time => "time(\""@ + col + "\")"@,
            SimpleColumnType::Timestamp => "timestamp(\""@ + col + "\")"@,
            SimpleColumnType::Timestamptz => "timestamp(\""@ + col + "\", { withTimezone: true })"@,
            SimpleColumnType::Uuid => "uuid(\""@ + col + "\")"@,
            SimpleColumnType::Json => "jsonb(\""@ + col + "\")"@,
            SimpleColumnType::Interval => "text(\""@ + col + "\") /* interval */"@,
            SimpleColumnType::Bytea => "text(\""@ + col + "\") /* bytea */"@,
            SimpleColumnType::Inet => "text(\""@ + col + "\") /* inet */"@,
            SimpleColumnType::Cidr => "text(\""@ + col + "\") /* cidr */"@,
            SimpleColumnType::Macaddr => "text(\""@ + col + "\") /* macaddr */"@,
            SimpleColumnType::Xml => "text(\""@ + col + "\") /* xml */"@,
            SimpleColumnType::Text => "text(\""@ + col + "\")"@,
        },
        ColumnType::Complex(c) => match c {
            ComplexColumnType::Varchar { length } => "varchar(\""@ + col + "\", { length: "@
                + decimal(length as nat) + " })"@,
            ComplexColumnType::Char { length } => "char(\""@ + col + "\", { length: "@ + decimal(
                length as nat,
            ) + " })"@,
            ComplexColumnType::Numeric { precision, scale } => "numeric(\""@ + col
                + "\", { precision: "@ + decimal(precision as nat) + ", scale: "@ + decimal(
                scale as nat,
            ) + " })"@,
            ComplexColumnType::Custom { custom_type } => "text(\""@ + col + "\") /* "@
                + custom_type@ + " */"@,
            ComplexColumnType::Enum { name, values } => match values {
                EnumValues::Integer(_) => "integer(\""@ + col + "\")"@,
                EnumValues::String(_) => camel(name@) + "(\""@ + col + "\")"@,
            },
        },
    }
}

/// `<a><col><b>`
fn wrap(a: &str, col: &str, b: &str) -> (res: String)
    ensures
        res@ == a@ + col@ + b@,
{
    let mut out = String::from_str(a);
    push_str(&mut out, col);
    push_str(&mut out, b);
    out
}

/// Renders the column constructor call of a column.
pub fn render_col_type_call(ty: &ColumnType, col_db: &str, is_auto_increment: bool) -> (res:
    String)
    ensures
        res@ == col_type_call(*ty, col_db@, is_auto_increment),
{
    match ty {
        ColumnType::Simple(s) => match s {
            SimpleColumnType::SmallInt => wrap("smallint(\"", col_db, "\")"),
            SimpleColumnType::Integer => if is_auto_increment {
                wrap("serial(\"", col_db, "\")")
            } else {
                wrap("integer(\"", col_db, "\")")
            },
            SimpleColumnType::BigInt => if is_auto_increment {
                wrap("bigserial(\"", col_db, "\", { mode: \"number\" })")
            } else {
                wrap("bigint(\"", col_db, "\", { mode: \"number\" })")
            },
            SimpleColumnType::Real => wrap("real(\"", col_db, "\")"),
            SimpleColumnType::DoublePrecision => wrap("doublePrecision(\"", col_db, "\")"),
            SimpleColumnType::Boolean => wrap("boolean(\"", col_db, "\")"),
            SimpleColumnType::Date => wrap("date(\"", col_db, "\")"),
            SimpleColumnType::Time => wrap("time(\"", col_db, "\")"),
            SimpleColumnType::Timestamp => wrap("timestamp(\"", col_db, "\")"),
            SimpleColumnType::Timestamptz => wrap(
                "timestamp(\"",
                col_db,
                "\", { withTimezone: true })",
            ),
            SimpleColumnType::Uuid => wrap("uuid(\"", col_db, "\")"),
            SimpleColumnType::Json => wrap("jsonb(\"", col_db, "\")"),
            SimpleColumnType::Interval => wrap("text(\"", col_db, "\") /* interval */"),
            SimpleColumnType::Bytea => wrap("text(\"", col_db, "\") /* bytea */"),
            SimpleColumnType::Inet => wrap("text(\"", col_db, "\") /* inet */"),
            SimpleColumnType::Cidr => wrap("text(\"", col_db, "\") /* cidr */"),
            SimpleColumnType::Macaddr => wrap("text(\"", col_db, "\") /* macaddr */"),
            SimpleColumnType::Xml => wrap("text(\"", col_db, "\") /* xml */"),
            SimpleColumnType::Text => wrap("text(\"", col_db, "\")"),
        },
        ColumnType::Complex(c) => match c {
            ComplexColumnType::Varchar { length } => {
                let mut out = wrap("varchar(\"", col_db, "\", { length: ");
                push_decimal(&mut out, *length as u64);
                push_str(&mut out, " })");
                out
            },
            ComplexColumnType::Char { length } => {
                let mut out = wrap("char(\"", col_db, "\", { length: ");
                push_decimal(&mut out, *length as u64);
                push_str(&mut out, " })");
                out
            },
            ComplexColumnType::Numeric { precision, scale } => {
                let mut out = wrap("numeric(\"", col_db, "\", { precision: ");
                push_decimal(&mut out, *precision as u64);
                push_str(&mut out, ", scale: ");
                push_decimal(&mut out, *scale as u64);
                push_str(&mut out, " })");
                out
            },
            ComplexColumnType::Custom { custom_type } => {
                let mut out = wrap("text(\"", col_db, "\") /* ");
                push_str(&mut out, custom_type.as_str());
                push_str(&mut out, " */");
                out
            },
            ComplexColumnType::Enum { name, values } => match values {
                EnumValues::Integer(_) => wrap("integer(\"", col_db, "\")"),
                EnumValues::String(_) => {
                    let mut out = to_camel_case(name.as_str());
                    push_str(&mut out, "(\"");
                    push_str(&mut out, col_db);
                    push_str(&mut out, "\")");
                    out
                },
            },
        },
    }
}


/// The call that renders a column begins with the constructor that the import
/// list collects for it, applied to the column's name: `<symbol>("<col>"`.
pub proof fn lemma_call_uses_collected_symbol(ty: ColumnType, col: Seq<char>, is_auto_increment: bool)
    ensures
        starts_with(
            col_type_call(ty, col, is_auto_increment),
            col_symbol(ty, is_auto_increment) + "(\""@ + col + "\""@,
        ),
{
    reveal_strlit("(\"");
    reveal_strlit("\"");
    reveal_strlit("\")");
    reveal_strlit("\", { mode: \"number\" })");
    reveal_strlit("\", { withTimezone: true })");
    reveal_strlit("\") /* interval */");
    reveal_strlit("\") /* bytea */");
    reveal_strlit("\") /* inet */");
    reveal_strlit("\") /* cidr */");
    reveal_strlit("\") /* macaddr */");
    reveal_strlit("\") /* xml */");
    reveal_strlit("\", { length: ");
    reveal_strlit("\", { precision: ");
    reveal_strlit("\") /* ");
    reveal_strlit("smallint(\"");
    reveal_strlit("serial(\"");
    reveal_strlit("integer(\"");
    reveal_strlit("bigserial(\"");
    reveal_strlit("bigint(\"");
    reveal_strlit("real(\"");
    reveal_strlit("doublePrecision(\"");
    reveal_strlit("boolean(\"");
    reveal_strlit("date(\"");
    reveal_strlit("time(\"");
    reveal_strlit("timestamp(\"");
    reveal_strlit("uuid(\"");
    reveal_strlit("jsonb(\"");
    reveal_strlit("text(\"");
    reveal_strlit("varchar(\"");
    reveal_strlit("char(\"");
    reveal_strlit("numeric(\"");
    reveal_strlit("smallint");
    reveal_strlit("serial");
    reveal_strlit("integer");
    reveal_strlit("bigserial");
    reveal_strlit("bigint");
    reveal_strlit("real");
    reveal_strlit("doublePrecision");
    reveal_strlit("boolean");
    reveal_strlit("date");
    reveal_strlit("time");
    reveal_strlit("timestamp");
    reveal_strlit("uuid");
    reveal_strlit("jsonb");
    reveal_strlit("text");
    reveal_strlit("varchar");
    reveal_strlit("char");
    reveal_strlit("numeric");
    let call = col_type_call(ty, col, is_auto_increment);
    let head = col_symbol(ty, is_auto_increment) + "(\""@ + col + "\""@;
    assert(call.subrange(0, head.len() as int) =~= head);
}


/// `a` comes strictly before `b` in lexicographic order of characters (the
/// order of `String`'s `Ord`, as UTF-8 keeps the order of code points).
pub open spec fn lex_lt(a: Seq<char>, b: Seq<char>) -> bool
    decreases a.len(),
{
    if a.len() == 0 {
        b.len() > 0
    } else if b.len() == 0 {
        false
    } else if a[0] == b[0] {
        lex_lt(a.drop_first(), b.drop_first())
    } else {
        (a[0] as u32) < (b[0] as u32)
    }
}

/// The lexicographic order is transitive.
pub proof fn lemma_lex_lt_transitive(a: Seq<char>, b: Seq<char>, c: Seq<char>)
    requires
        lex_lt(a, b),
        lex_lt(b, c),
    ensures
        lex_lt(a, c),
    decreases a.len(),
{
    if a.len() > 0 && b.len() > 0 && c.len() > 0 && a[0] == b[0] && b[0] == c[0] {
        lemma_lex_lt_transitive(a.drop_first(), b.drop_first(), c.drop_first());
    }
}

proof fn lemma_adjacent_names_sorted(i: int)
    requires
        0 <= i < 16,
    ensures
        lex_lt(pg_name(all_pg_core_types()[i]), pg_name(all_pg_core_types()[i + 1])),
{
    reveal_strlit("bigint");
    reveal_strlit("bigserial");
    reveal_strlit("boolean");
    reveal_strlit("char");
    reveal_strlit("date");
    reveal_strlit("doublePrecision");
    reveal_strlit("integer");
    reveal_strlit("jsonb");
    reveal_strlit("numeric");
    reveal_strlit("real");
    reveal_strlit("serial");
    reveal_strlit("smallint");
    reveal_strlit("text");
    reveal_strlit("time");
    reveal_strlit("timestamp");
    reveal_strlit("uuid");
    reveal_strlit("varchar");
    reveal_with_fuel(lex_lt, 6);
}

/// The names of the constructors, in the order of `all_pg_core_types()`, are
/// strictly increasing alphabetically.
pub proof fn lemma_pg_names_sorted(i: int, j: int)
    requires
        0 <= i < j < 17,
    ensures
        lex_lt(pg_name(all_pg_core_types()[i]), pg_name(all_pg_core_types()[j])),
    decreases j - i,
{
    lemma_adjacent_names_sorted(j - 1);
    if i < j - 1 {
        lemma_pg_names_sorted(i, j - 1);
        lemma_lex_lt_transitive(
            pg_name(all_pg_core_types()[i]),
            pg_name(all_pg_core_types()[j - 1]),
            pg_name(all_pg_core_types()[j]),
        );
    }
}

/// Every constructor is listed in `all_pg_core_types()`.
pub proof fn lemma_every_type_listed(k: PgCoreType)
    ensures
        exists|i: int| 0 <= i < 17 && all_pg_core_types()[i] == k,
{
    let all = all_pg_core_types();
    match k {
        PgCoreType::Bigint => assert(all[0] == k),
        PgCoreType::Bigserial => assert(all[1] == k),
        PgCoreType::Boolean => assert(all[2] == k),
        PgCoreType::Char => assert(all[3] == k),
        PgCoreType::Date => assert(all[4] == k),
        PgCoreType::DoublePrecision => assert(all[5] == k),
        PgCoreType::Integer => assert(all[6] == k),
        PgCoreType::Jsonb => assert(all[7] == k),
        PgCoreType::Numeric => assert(all[8] == k),
        PgCoreType::Real => assert(all[9] == k),
        PgCoreType::Serial => assert(all[10] == k),
        PgCoreType::Smallint => assert(all[11] == k),
        PgCoreType::Text => assert(all[12] == k),
        PgCoreType::Time => assert(all[13] == k),
        PgCoreType::Timestamp => assert(all[14] == k),
        PgCoreType::Uuid => assert(all[15] == k),
        PgCoreType::Varchar => assert(all[16] == k),
    }
}

/// No name comes strictly before itself.
pub proof fn lemma_lex_lt_irreflexive(a: Seq<char>)
    ensures
        !lex_lt(a, a),
    decreases a.len(),
{
    if a.len() > 0 {
        lemma_lex_lt_irreflexive(a.drop_first());
    }
}

/// Distinct constructors have distinct names.
pub proof fn lemma_pg_name_injective(a: PgCoreType, b: PgCoreType)
    requires
        pg_name(a) == pg_name(b),
    ensures
        a == b,
{
    lemma_every_type_listed(a);
    lemma_every_type_listed(b);
    let i = choose|i: int| 0 <= i < 17 && all_pg_core_types()[i] == a;
    let j = choose|j: int| 0 <= j < 17 && all_pg_core_types()[j] == b;
    lemma_lex_lt_irreflexive(pg_name(a));
    if i < j {
        lemma_pg_names_sorted(i, j);
    } else if j < i {
        lemma_pg_names_sorted(j, i);
    }
}


proof fn lemma_pg_name_no_paren(k: PgCoreType)
    ensures
        !pg_name(k).contains('('),
{
    reveal_strlit("bigint");
    reveal_strlit("bigserial");
    reveal_strlit("boolean");
    reveal_strlit("char");
    reveal_strlit("date");
    reveal_strlit("doublePrecision");
    reveal_strlit("integer");
    reveal_strlit("jsonb");
    reveal_strlit("numeric");
    reveal_strlit("real");
    reveal_strlit("serial");
    reveal_strlit("smallint");
    reveal_strlit("text");
    reveal_strlit("time");
    reveal_strlit("timestamp");
    reveal_strlit("uuid");
    reveal_strlit("varchar");
    let n = pg_name(k);
    assert forall|i: int| 0 <= i < n.len() implies n[i] != '(' by {}
}

/// Two strings that begin with different parenthesis-free names, each
/// followed by `(`, are different.
proof fn lemma_distinct_heads(n1: Seq<char>, n2: Seq<char>, a: Seq<char>, b: Seq<char>)
    requires
        n1 != n2,
        !n1.contains('('),
        !n2.contains('('),
        a.len() > n1.len(),
        a.subrange(0, n1.len() as int) == n1,
        a[n1.len() as int] == '(',
        b.len() > n2.len(),
        b.subrange(0, n2.len() as int) == n2,
        b[n2.len() as int] == '(',
    ensures
        a != b,
{
    if a == b {
        if n1.len() < n2.len() {
            assert(b.subrange(0, n2.len() as int)[n1.len() as int] == b[n1.len() as int]);
            assert(n2.contains(n2[n1.len() as int]));
        } else if n2.len() < n1.len() {
            assert(a.subrange(0, n1.len() as int)[n2.len() as int] == a[n2.len() as int]);
            assert(n1.contains(n1[n2.len() as int]));
        }
    }
}

/// The call of a column whose constructor is `k` begins with `k`'s name and `(`.
proof fn lemma_call_head(t: ColumnType, col: Seq<char>, ai: bool, k: PgCoreType)
    requires
        core_type_of(t, ai) == Some(k),
    ensures
        col_type_call(t, col, ai).len() > pg_name(k).len(),
        col_type_call(t, col, ai).subrange(0, pg_name(k).len() as int) == pg_name(k),
        col_type_call(t, col, ai)[pg_name(k).len() as int] == '(',
{
    lemma_call_uses_collected_symbol(t, col, ai);
    reveal_strlit("(\"");
    let c = col_type_call(t, col, ai);
    let n = pg_name(k);
    let h = n + "(\""@ + col + "\""@;
    assert(c.subrange(0, h.len() as int) == h);
    assert(h[n.len() as int] == '(');
    assert(c.subrange(0, h.len() as int)[n.len() as int] == c[n.len() as int]);
    assert(c.subrange(0, n.len() as int) =~= h.subrange(0, n.len() as int));
    assert(h.subrange(0, n.len() as int) =~= n);
}

/// Different parameter-free SQL column types render to different constructor
/// calls for the same column: in particular `real` and `doublePrecision`
/// columns, and timestamps with and without time zone, are told apart.
pub proof fn lemma_simple_calls_distinct(
    s1: SimpleColumnType,
    s2: SimpleColumnType,
    col: Seq<char>,
    is_auto_increment: bool,
)
    requires
        s1 != s2,
    ensures
        col_type_call(ColumnType::Simple(s1), col, is_auto_increment) != col_type_call(
            ColumnType::Simple(s2),
            col,
            is_auto_increment,
        ),
{
    let t1 = ColumnType::Simple(s1);
    let t2 = ColumnType::Simple(s2);
    let c1 = col_type_call(t1, col, is_auto_increment);
    let c2 = col_type_call(t2, col, is_auto_increment);
    let k1 = core_type_of(t1, is_auto_increment).unwrap();
    let k2 = core_type_of(t2, is_auto_increment).unwrap();
    lemma_call_uses_collected_symbol(t1, col, is_auto_increment);
    lemma_call_uses_collected_symbol(t2, col, is_auto_increment);
    reveal_strlit("(\"");
    if k1 != k2 {
        let n1 = pg_name(k1);
        let n2 = pg_name(k2);
        if n1 == n2 {
            lemma_pg_name_injective(k1, k2);
        }
        lemma_pg_name_no_paren(k1);
        lemma_pg_name_no_paren(k2);
        lemma_call_head(t1, col, is_auto_increment, k1);
        lemma_call_head(t2, col, is_auto_increment, k2);
        lemma_distinct_heads(n1, n2, c1, c2);
    } else {
        reveal_strlit("\")");
        reveal_strlit("\", { withTimezone: true })");
        reveal_strlit("\") /* interval */");
        reveal_strlit("\") /* bytea */");
        reveal_strlit("\") /* inet */");
        reveal_strlit("\") /* cidr */");
        reveal_strlit("\") /* macaddr */");
        reveal_strlit("\") /* xml */");
        reveal_strlit("timestamp(\"");
        reveal_strlit("text(\"");
        if (s1 == SimpleColumnType::Inet && s2 == SimpleColumnType::Cidr) || (s1
            == SimpleColumnType::Cidr && s2 == SimpleColumnType::Inet) {
            let at: int = 12int + col.len();
            assert(c1[at] != c2[at]);
        } else {
            assert(c1.len() != c2.len());
        }
    }
}

/// A column of a parameter-free SQL type other than `bigint`, `timestamptz`
/// and the types rendered as commented `text` is built by calling its
/// constructor on the column name alone, with no options: in particular a
/// timestamp without time zone renders as `timestamp("<col>")`.
pub proof fn lemma_plain_call(s: SimpleColumnType, col: Seq<char>, is_auto_increment: bool)
    requires
        s != SimpleColumnType::BigInt,
        s != SimpleColumnType::Timestamptz,
        s != SimpleColumnType::Interval,
        s != SimpleColumnType::Bytea,
        s != SimpleColumnType::Inet,
        s != SimpleColumnType::Cidr,
        s != SimpleColumnType::Macaddr,
        s != SimpleColumnType::Xml,
    ensures
        col_type_call(ColumnType::Simple(s), col, is_auto_increment) == col_symbol(
            ColumnType::Simple(s),
            is_auto_increment,
        ) + "(\""@ + col + "\")"@,
{
    reveal_strlit("(\"");
    reveal_strlit("\")");
    reveal_strlit("smallint(\"");
    reveal_strlit("serial(\"");
    reveal_strlit("integer(\"");
    reveal_strlit("real(\"");
    reveal_strlit("doublePrecision(\"");
    reveal_strlit("boolean(\"");
    reveal_strlit("date(\"");
    reveal_strlit("time(\"");
    reveal_strlit("timestamp(\"");
    reveal_strlit("uuid(\"");
    reveal_strlit("jsonb(\"");
    reveal_strlit("text(\"");
    reveal_strlit("smallint");
    reveal_strlit("serial");
    reveal_strlit("integer");
    reveal_strlit("real");
    reveal_strlit("doublePrecision");
    reveal_strlit("boolean");
    reveal_strlit("date");
    reveal_strlit("time");
    reveal_strlit("timestamp");
    reveal_strlit("uuid");
    reveal_strlit("jsonb");
    reveal_strlit("text");
    assert(col_type_call(ColumnType::Simple(s), col, is_auto_increment) =~= col_symbol(
        ColumnType::Simple(s),
        is_auto_increment,
    ) + "(\""@ + col + "\")"@);
}

} // verus!
