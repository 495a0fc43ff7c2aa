//! Column default values: how a SQL default becomes a Drizzle `.default...()` call.

use vstd::prelude::*;

use crate::enums::push_str;
use crate::model::{ColumnType, ComplexColumnType, EnumValues, NumValue, SimpleColumnType};
use crate::text::{
    chars_of, contains, ends_with, float_literal, has_char, has_infix, has_prefix, is_quote,
    lowercase_of, parses_as_float, push_signed_decimal, replace_all, replace_char,
    signed_decimal, starts_with, str_eq, string_from, to_lowercase, trim_quote_chars,
    trim_quotes, trim_whitespace, trim_ws, views, contains_string, strip_back, strip_front, trim_with, decimal,
    is_digit, is_sign, special_float, ascii_lower, number_part, lead_digits, white_space,
};

verus! {

/// The lowercased default calls `now()` or starts with `current_timestamp`.
pub open spec fn is_now_default(lower: Seq<char>) -> bool {
    contains(lower, "now()"@) || starts_with(lower, "current_timestamp"@)
}

/// The lowercased default calls a UUID generator.
pub open spec fn is_random_default(lower: Seq<char>) -> bool {
    contains(lower, "gen_random_uuid()"@) || contains(lower, "uuid_generate_v4()"@) || contains(
        lower,
        "newid()"@,
    )
}

/// Whether a SQL default must be emitted through a `sql` tagged template
/// rather than as a literal `.default(...)` argument.
pub open spec fn default_needs_sql(d: Seq<char>) -> bool {
    needs_sql_given(d, lowercase_of(d))
}

/// `default_needs_sql`, with `lower` standing for the lowercase form of `d`.
pub open spec fn needs_sql_given(d: Seq<char>, lower: Seq<char>) -> bool {
    if d == "true"@ || d == "false"@ {
        false
    } else if is_now_default(lower) || is_random_default(lower) {
        false
    } else if d.contains('(') {
        true
    } else if d.len() > 0 && is_quote(d[0]) {
        false
    } else if float_literal(d) {
        false
    } else {
        true
    }
}

/// A JSON object or array literal given as the default of a json column.
pub open spec fn json_literal_default(d: Seq<char>, ty: ColumnType) -> bool {
    ty == ColumnType::Simple(SimpleColumnType::Json) && {
        let t = trim_ws(d);
        t.len() > 0 && (t[0] == '{' || t[0] == '[')
    }
}

/// Escapes a JSON literal for a `sql` template holding a SQL string literal.
pub open spec fn jsonb_escape(t: Seq<char>) -> Seq<char> {
    replace_char(replace_char(replace_char(t, '\\', "\\\\"@), '`', "\\`"@), '\'', "''"@)
}

/// Escapes backticks for a `sql` template.
pub open spec fn backtick_escape(d: Seq<char>) -> Seq<char> {
    replace_char(d, '`', "\\`"@)
}

/// Escapes backslashes and double quotes for a JavaScript string literal.
pub open spec fn string_escape(s: Seq<char>) -> Seq<char> {
    replace_char(replace_char(s, '\\', "\\\\"@), '"', "\\\""@)
}

/// The column is a string enum with the variant `v`.
pub open spec fn string_enum_has(ty: ColumnType, v: Seq<char>) -> bool {
    match ty {
        ColumnType::Complex(ComplexColumnType::Enum { values, .. }) => match values {
            EnumValues::String(vs) => views(vs@).contains(v),
            _ => false,
        },
        _ => false,
    }
}

/// The first integer variant named `d`.
pub open spec fn first_named(vs: Seq<NumValue>, d: Seq<char>) -> Option<NumValue>
    decreases vs.len(),
{
    if vs.len() == 0 {
        None
    } else if vs[0].name@ == d {
        Some(vs[0])
    } else {
        first_named(vs.drop_first(), d)
    }
}

/// The first variant named `d`, when the column is an integer enum.
pub open spec fn int_enum_variant(ty: ColumnType, d: Seq<char>) -> Option<NumValue> {
    match ty {
        ColumnType::Complex(ComplexColumnType::Enum { values, .. }) => match values {
            EnumValues::Integer(vs) => first_named(vs@, d),
            _ => None,
        },
        _ => None,
    }
}

/// The `.default...()` call that a SQL default `d` of a column of type `ty` becomes.
pub open spec fn default_chain(d: Seq<char>, ty: ColumnType) -> Seq<char> {
    chain_given(d, lowercase_of(d), ty)
}

/// `default_chain`, with `lower` standing for the lowercase form of `d`.
pub open spec fn chain_given(d: Seq<char>, lower: Seq<char>, ty: ColumnType) -> Seq<char> {
    if d == "true"@ {
        ".default(true)"@
    } else if d == "false"@ {
        ".default(false)"@
    } else if is_now_default(lower) {
        ".defaultNow()"@
    } else if is_random_default(lower) {
        ".defaultRandom()"@
    } else if json_literal_default(d, ty) {
        ".default(sql`'"@ + jsonb_escape(trim_ws(d)) + "'::jsonb`)"@
    } else if d.contains('(') {
        ".default(sql`"@ + backtick_escape(d) + "`)"@
    } else if d.len() > 0 && is_quote(d[0]) {
        let stripped = trim_quote_chars(d);
        if string_enum_has(ty, stripped) {
            ".default(\""@ + stripped + "\")"@
        } else {
            ".default(\""@ + string_escape(stripped) + "\")"@
        }
    } else if float_literal(d) {
        ".default("@ + d + ")"@
    } else {
        match int_enum_variant(ty, d) {
            Some(v) => ".default("@ + signed_decimal(v.value as int) + ")"@,
            None => ".default(sql`"@ + backtick_escape(d) + "`)"@,
        }
    }
}

fn lower_is_now(lower: &[char]) -> (res: bool)
    ensures
        res == is_now_default(lower@),
{
    let now = chars_of("now()");
    let ts = chars_of("current_timestamp");
    has_infix(lower, now.as_slice()) || has_prefix(lower, ts.as_slice())
}

fn lower_is_random(lower: &[char]) -> (res: bool)
    ensures
        res == is_random_default(lower@),
{
    let a = chars_of("gen_random_uuid()");
    let b = chars_of("uuid_generate_v4()");
    let c = chars_of("newid()");
    has_infix(lower, a.as_slice()) || has_infix(lower, b.as_slice()) || has_infix(
        lower,
        c.as_slice(),
    )
}

/// Whether a SQL default expression must be emitted via a `sql` tagged
/// template rather than a literal `.default(...)` argument.
pub fn drizzle_default_needs_sql(default_sql: &str) -> (res: bool)
    ensures
        res == default_needs_sql(default_sql@),
{
    let lower = to_lowercase(default_sql);
    default_needs_sql_given(default_sql, lower.as_str())
}

/// Whether a SQL default needs the `sql` tag, given its lowercase form `lower`.
pub fn default_needs_sql_given(default_sql: &str, lower: &str) -> (res: bool)
    ensures
        res == needs_sql_given(default_sql@, lower@),
{
    if str_eq(default_sql, "true") || str_eq(default_sql, "false") {
        return false;
    }
    let lower = chars_of(lower);
    if lower_is_now(lower.as_slice()) {
        return false;
    }
    if lower_is_random(lower.as_slice()) {
        return false;
    }
    let d = chars_of(default_sql);
    if has_char(d.as_slice(), '(') {
        return true;
    }
    if d.len() > 0 && (d[0] == '\'' || d[0] == '"') {
        return false;
    }
    if parses_as_float(d.as_slice()) {
        return false;
    }
    true
}

fn is_json_type(ty: &ColumnType) -> (res: bool)
    ensures
        res == (*ty == ColumnType::Simple(SimpleColumnType::Json)),
{
    match ty {
        ColumnType::Simple(SimpleColumnType::Json) => true,
        _ => false,
    }
}

fn first_named_index(vs: &Vec<NumValue>, d: &str) -> (res: Option<usize>)
    ensures
        match res {
            Some(i) => i < vs.len() && first_named(vs@, d@) == Some(vs@[i as int]),
            None => first_named(vs@, d@) is None,
        },
{
    let mut i: usize = 0;
    assert(vs@.skip(0) =~= vs@);
    while i < vs.len()
        invariant
            i <= vs.len(),
            first_named(vs@, d@) == first_named(vs@.skip(i as int), d@),
        decreases vs.len() - i,
    {
        assert(vs@.skip(i as int)[0] == vs@[i as int]);
        if str_eq(vs[i].name.as_str(), d) {
            return Some(i);
        }
        assert(vs@.skip(i as int).drop_first() =~= vs@.skip(i + 1));
        i = i + 1;
    }
    None
}

fn push_chars(out: &mut String, v: &[char])
    ensures
        final(out)@ == old(out)@ + v@,
{
    let s = string_from(v);
    push_str(out, s.as_str());
}

/// Renders the `.default...()` call for a SQL default of a column of type `col_type`.
pub fn drizzle_default_chain(default_sql: &str, col_type: &ColumnType) -> (res: String)
    ensures
        res@ == default_chain(default_sql@, *col_type),
{
    let lower = to_lowercase(default_sql);
    default_chain_given(default_sql, lower.as_str(), col_type)
}

/// Renders the `.default...()` call for a SQL default, given its lowercase form `lower`.
pub fn default_chain_given(default_sql: &str, lower: &str, col_type: &ColumnType) -> (res: String)
    ensures
        res@ == chain_given(default_sql@, lower@, *col_type),
{
    if str_eq(default_sql, "true") {
        return String::from_str(".default(true)");
    }
    if str_eq(default_sql, "false") {
        return String::from_str(".default(false)");
    }
    let lower = chars_of(lower);
    if lower_is_now(lower.as_slice()) {
        return String::from_str(".defaultNow()");
    }
    if lower_is_random(lower.as_slice()) {
        return String::from_str(".defaultRandom()");
    }
    let d = chars_of(default_sql);
    if is_json_type(col_type) {
        let trimmed = trim_whitespace(d.as_slice());
        if trimmed.len() > 0 && (trimmed[0] == '{' || trimmed[0] == '[') {
            let bs = chars_of("\\\\");
            let bt = chars_of("\\`");
            let qq = chars_of("''");
            let e1 = replace_all(trimmed.as_slice(), '\\', bs.as_slice());
            let e2 = replace_all(e1.as_slice(), '`', bt.as_slice());
            let e3 = replace_all(e2.as_slice(), '\'', qq.as_slice());
            let mut out = String::from_str(".default(sql`'");
            push_chars(&mut out, e3.as_slice());
            push_str(&mut out, "'::jsonb`)");
            return out;
        }
    }
    if has_char(d.as_slice(), '(') {
        let bt = chars_of("\\`");
        let e = replace_all(d.as_slice(), '`', bt.as_slice());
        let mut out = String::from_str(".default(sql`");
        push_chars(&mut out, e.as_slice());
        push_str(&mut out, "`)");
        return out;
    }
    if d.len() > 0 && (d[0] == '\'' || d[0] == '"') {
        let stripped = trim_quotes(d.as_slice());
        let is_variant = match col_type {
            ColumnType::Complex(ComplexColumnType::Enum { values, .. }) => match values {
                EnumValues::String(variants) => contains_string(variants, stripped.as_slice()),
                _ => false,
            },
            _ => false,
        };
        let mut out = String::from_str(".default(\"");
        if is_variant {
            push_chars(&mut out, stripped.as_slice());
        } else {
            let bs = chars_of("\\\\");
            let dq = chars_of("\\\"");
            let e1 = replace_all(stripped.as_slice(), '\\', bs.as_slice());
            let e2 = replace_all(e1.as_slice(), '"', dq.as_slice());
            push_chars(&mut out, e2.as_slice());
        }
        push_str(&mut out, "\")");
        return out;
    }
    if parses_as_float(d.as_slice()) {
        let mut out = String::from_str(".default(");
        push_str(&mut out, default_sql);
        push_str(&mut out, ")");
        return out;
    }
    match col_type {
        ColumnType::Complex(ComplexColumnType::Enum { values, .. }) => match values {
            EnumValues::Integer(variants) => {
                match first_named_index(variants, default_sql) {
                    Some(i) => {
                        let mut out = String::from_str(".default(");
                        push_signed_decimal(&mut out, variants[i].value);
                        push_str(&mut out, ")");
                        return out;
                    },
                    None => {},
                }
            },
            _ => {},
        },
        _ => {},
    }
    let bt = chars_of("\\`");
    let e = replace_all(d.as_slice(), '`', bt.as_slice());
    let mut out = String::from_str(".default(sql`");
    push_chars(&mut out, e.as_slice());
    push_str(&mut out, "`)");
    out
}


proof fn lemma_strip_back_prefix(s: Seq<char>, p: spec_fn(char) -> bool)
    ensures
        strip_back(s, p).len() <= s.len(),
        strip_back(s, p) == s.take(strip_back(s, p).len() as int),
    decreases s.len(),
{
    if s.len() > 0 && p(s.last()) {
        lemma_strip_back_prefix(s.drop_last(), p);
        assert(s.drop_last().take(strip_back(s, p).len() as int) =~= s.take(
            strip_back(s, p).len() as int,
        ));
    } else {
        assert(s.take(s.len() as int) =~= s);
    }
}

/// The first character of a non-empty trimmed string is the first character
/// of the string, unless that one was trimmed away.
proof fn lemma_trim_first(s: Seq<char>, p: spec_fn(char) -> bool)
    requires
        trim_with(s, p).len() > 0,
    ensures
        s.len() > 0,
        p(s[0]) || trim_with(s, p)[0] == s[0],
{
    if s.len() == 0 {
        assert(strip_front(s, p) == s);
        lemma_strip_back_prefix(s, p);
    } else if !p(s[0]) {
        assert(strip_front(s, p) == s);
        lemma_strip_back_prefix(s, p);
    }
}

proof fn lemma_decimal_starts_with_digit(n: nat)
    ensures
        decimal(n).len() > 0,
        is_digit(decimal(n)[0]),
    decreases n,
{
    if n >= 10 {
        lemma_decimal_starts_with_digit(n / 10);
    }
}

proof fn lemma_float_literal_start(d: Seq<char>)
    requires
        float_literal(d),
    ensures
        d.len() > 0,
        d[0] != 's',
        !white_space(d[0]),
        d[0] != '{' && d[0] != '[',
{
    let body = if d.len() > 0 && is_sign(d[0]) {
        d.drop_first()
    } else {
        d
    };
    if !(d.len() > 0 && is_sign(d[0])) {
        if special_float(body) {
            let l = body.map_values(|c: char| ascii_lower(c));
            assert(l.len() >= 3);
            assert(l[0] == 'i' || l[0] == 'n');
        } else {
            assert(number_part(body));
            if lead_digits(body) > 0 {
                assert(is_digit(body[0]));
            } else {
                assert(body.skip(0) =~= body);
            }
        }
    }
}

/// A default rendered through a `sql` template is one that the import scan
/// counts as needing `sql`; and a default that the scan counts as needing
/// `sql` is rendered through a `sql` template, unless it names a variant of
/// the column's integer enum (which renders as that variant's number).
pub proof fn lemma_sql_template_matches_needs_sql(d: Seq<char>, ty: ColumnType)
    ensures
        starts_with(default_chain(d, ty), ".default(sql`"@) ==> default_needs_sql(d),
        default_needs_sql(d) ==> starts_with(default_chain(d, ty), ".default(sql`"@)
            || int_enum_variant(ty, d) is Some,
{
    reveal_strlit(".default(sql`");
    reveal_strlit(".default(sql`'");
    reveal_strlit(".default(true)");
    reveal_strlit(".default(false)");
    reveal_strlit(".defaultNow()");
    reveal_strlit(".defaultRandom()");
    reveal_strlit(".default(\"");
    reveal_strlit(".default(");
    let out = default_chain(d, ty);
    let pre = ".default(sql`"@;
    if d == "true"@ || d == "false"@ || is_now_default(lowercase_of(d)) || is_random_default(
        lowercase_of(d),
    ) {
        if starts_with(out, pre) {
            assert(out.subrange(0, 13)[9] == out[9]);
            assert(out.subrange(0, 13)[8] == out[8]);
        }
    } else if json_literal_default(d, ty) {
        let t = trim_ws(d);
        lemma_trim_first(d, |c: char| white_space(c));
        assert(!is_quote(d[0]));
        if float_literal(d) {
            lemma_float_literal_start(d);
        }
        assert(out.subrange(0, 13) =~= pre);
    } else if d.contains('(') {
        assert(out.subrange(0, 13) =~= pre);
    } else if d.len() > 0 && is_quote(d[0]) {
        if starts_with(out, pre) {
            assert(out.subrange(0, 13)[9] == out[9]);
        }
    } else if float_literal(d) {
        lemma_float_literal_start(d);
        if starts_with(out, pre) {
            assert(out.subrange(0, 13)[9] == out[9]);
        }
    } else {
        match int_enum_variant(ty, d) {
            Some(v) => {},
            None => {
                assert(out.subrange(0, 13) =~= pre);
            },
        }
    }
}

/// A default becomes `.defaultNow()` exactly when it is neither `true` nor
/// `false` and its lowercase form calls `now()` or starts with
/// `current_timestamp`.
pub proof fn lemma_default_now_iff(d: Seq<char>, ty: ColumnType)
    ensures
        (default_chain(d, ty) == ".defaultNow()"@) == (d != "true"@ && d != "false"@ && (contains(
            lowercase_of(d),
            "now()"@,
        ) || starts_with(lowercase_of(d), "current_timestamp"@))),
{
    reveal_strlit(".defaultNow()");
    reveal_strlit(".default(true)");
    reveal_strlit(".default(false)");
    reveal_strlit(".defaultRandom()");
    reveal_strlit(".default(sql`'");
    reveal_strlit(".default(sql`");
    reveal_strlit(".default(\"");
    reveal_strlit(".default(");
    let out = default_chain(d, ty);
    let lower = lowercase_of(d);
    let now = ".defaultNow()"@;
    if d == "true"@ {
        assert(out.len() != now.len());
    } else if d == "false"@ {
        assert(out.len() != now.len());
    } else if is_now_default(lower) {
    } else if is_random_default(lower) {
        assert(out.len() != now.len());
    } else {
        assert(out[8] == '(');
        assert(now[8] == 'N');
    }
}

/// A default becomes `.defaultRandom()` exactly when it is neither `true`
/// nor `false`, is not a `now()`/`current_timestamp` default, and its
/// lowercase form calls `gen_random_uuid()`, `uuid_generate_v4()` or `newid()`.
pub proof fn lemma_default_random_iff(d: Seq<char>, ty: ColumnType)
    ensures
        (default_chain(d, ty) == ".defaultRandom()"@) == (d != "true"@ && d != "false"@ && !(
        contains(lowercase_of(d), "now()"@) || starts_with(lowercase_of(d), "current_timestamp"@))
            && (contains(lowercase_of(d), "gen_random_uuid()"@) || contains(
            lowercase_of(d),
            "uuid_generate_v4()"@,
        ) || contains(lowercase_of(d), "newid()"@))),
{
    reveal_strlit(".defaultNow()");
    reveal_strlit(".default(true)");
    reveal_strlit(".default(false)");
    reveal_strlit(".defaultRandom()");
    reveal_strlit(".default(sql`'");
    reveal_strlit(".default(sql`");
    reveal_strlit(".default(\"");
    reveal_strlit(".default(");
    let out = default_chain(d, ty);
    let lower = lowercase_of(d);
    let rnd = ".defaultRandom()"@;
    if d == "true"@ {
        assert(out.len() != rnd.len());
    } else if d == "false"@ {
        assert(out.len() != rnd.len());
    } else if is_now_default(lower) {
        assert(out.len() != rnd.len());
    } else if is_random_default(lower) {
    } else {
        assert(out[8] == '(');
        assert(rnd[8] == 'R');
    }
}

proof fn lemma_replace_absent(s: Seq<char>, c: char, r: Seq<char>)
    requires
        !s.contains(c),
    ensures
        replace_char(s, c, r) == s,
    decreases s.len(),
{
    if s.len() > 0 {
        assert(!s.drop_last().contains(c)) by {
            if s.drop_last().contains(c) {
                let k = choose|k: int| 0 <= k < s.drop_last().len() && s.drop_last()[k] == c;
                assert(s[k] == c);
            }
        }
        lemma_replace_absent(s.drop_last(), c, r);
        assert(s.contains(s.last()));
        assert(s.drop_last() + seq![s.last()] =~= s);
    }
}

/// A default written as a quoted string literal, that calls no function and
/// whose lowercase form neither calls `now()` nor starts with
/// `current_timestamp`, becomes a JavaScript string literal
/// `.default("...")`; when its unquoted text holds no backslash or double
/// quote, that literal is exactly the unquoted text.
pub proof fn lemma_quoted_default_is_string(d: Seq<char>, ty: ColumnType)
    requires
        d.len() > 0,
        d[0] == '\'' || d[0] == '"',
        !d.contains('('),
        !contains(lowercase_of(d), "now()"@),
        !starts_with(lowercase_of(d), "current_timestamp"@),
        !contains(lowercase_of(d), "gen_random_uuid()"@),
        !contains(lowercase_of(d), "uuid_generate_v4()"@),
        !contains(lowercase_of(d), "newid()"@),
    ensures
        starts_with(default_chain(d, ty), ".default(\""@),
        ends_with(default_chain(d, ty), "\")"@),
        (!trim_quote_chars(d).contains('\\') && !trim_quote_chars(d).contains('"'))
            ==> default_chain(d, ty) == ".default(\""@ + trim_quote_chars(d) + "\")"@,
{
    reveal_strlit("true");
    reveal_strlit("false");
    let out = default_chain(d, ty);
    let st = trim_quote_chars(d);
    assert(d != "true"@ && d != "false"@) by {
        assert("true"@[0] == 't');
        assert("false"@[0] == 'f');
    }
    assert(!json_literal_default(d, ty)) by {
        if json_literal_default(d, ty) {
            lemma_trim_first(d, |c: char| white_space(c));
        }
    }
    let mid = if string_enum_has(ty, st) {
        st
    } else {
        string_escape(st)
    };
    assert(out == ".default(\""@ + mid + "\")"@);
    assert(out.subrange(0, ".default(\""@.len() as int) =~= ".default(\""@);
    assert(out.subrange(out.len() - "\")"@.len(), out.len() as int) =~= "\")"@);
    if !st.contains('\\') && !st.contains('"') {
        lemma_replace_absent(st, '\\', "\\\\"@);
        lemma_replace_absent(st, '"', "\\\""@);
    }
}

} // verus!
