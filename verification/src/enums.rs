//! Enum declarations and identifier case conversion.

use vstd::prelude::*;

use crate::model::{EnumValues, NumValue};
use crate::text::{
    all_ascii, ascii_upper, chars_of, ends_with, has_suffix, join, join_strings, lemma_ascii_upper,
    owned, push_char, upper, char_to_uppercase, views,
};

verus! {

/// camelCase conversion state machine over the rest `s` of the input:
/// underscores are dropped, and a character that follows an underscore
/// (other than a leading one) is uppercased.
pub open spec fn camel_go(s: Seq<char>, at_start: bool, cap: bool) -> Seq<char>
    decreases s.len(),
{
    if s.len() == 0 {
        Seq::empty()
    } else if s[0] == '_' {
        camel_go(s.drop_first(), false, cap || !at_start)
    } else if cap {
        upper(s[0]) + camel_go(s.drop_first(), false, false)
    } else {
        seq![s[0]] + camel_go(s.drop_first(), false, false)
    }
}

/// snake_case to camelCase.
pub open spec fn camel(s: Seq<char>) -> Seq<char> {
    camel_go(s, true, false)
}

/// PascalCase conversion over the rest `s` of the input: underscores are
/// dropped and the first character of every underscore-separated word is
/// uppercased.
pub open spec fn pascal_go(s: Seq<char>, cap: bool) -> Seq<char>
    decreases s.len(),
{
    if s.len() == 0 {
        Seq::empty()
    } else if s[0] == '_' {
        pascal_go(s.drop_first(), true)
    } else if cap {
        upper(s[0]) + pascal_go(s.drop_first(), false)
    } else {
        seq![s[0]] + pascal_go(s.drop_first(), false)
    }
}

/// snake_case to PascalCase.
pub open spec fn pascal(s: Seq<char>) -> Seq<char> {
    pascal_go(s, true)
}

/// The relation field name of a foreign-key column: the column name without
/// one trailing `_id`.
pub open spec fn relation_field(s: Seq<char>) -> Seq<char> {
    if ends_with(s, seq!['_', 'i', 'd']) {
        s.take(s.len() - 3)
    } else {
        s
    }
}

/// `v` in double quotes.
pub open spec fn quoted(v: Seq<char>) -> Seq<char> {
    seq!['"'] + v + seq!['"']
}

/// The quoted labels that a `pgEnum` declaration lists: the string variants,
/// or the names of integer variants.
pub open spec fn enum_labels(values: EnumValues) -> Seq<Seq<char>> {
    match values {
        EnumValues::String(vs) => views(vs@).map_values(|v: Seq<char>| quoted(v)),
        EnumValues::Integer(vs) => vs@.map_values(|n: NumValue| quoted(n.name@)),
    }
}

/// `export const <const_name> = pgEnum("<name>", [<labels>]);`
pub open spec fn enum_decl(name: Seq<char>, const_name: Seq<char>, values: EnumValues) -> Seq<
    char,
> {
    "export const "@ + const_name + " = pgEnum(\""@ + name + "\", ["@ + join(
        enum_labels(values),
        ", "@,
    ) + "]);"@
}

/// Appends `s` to `out`.
pub fn push_str(out: &mut String, s: &str)
    ensures
        final(out)@ == old(out)@ + s@,
{
    out.append(s);
}

fn quote_str(v: &str) -> (res: String)
    ensures
        res@ == quoted(v@),
{
    let mut s = String::new();
    push_char(&mut s, '"');
    push_str(&mut s, v);
    push_char(&mut s, '"');
    assert(s@ =~= quoted(v@));
    s
}

/// Renders a `pgEnum` declaration.
pub fn render_enum_decl(name: &str, const_name: &str, values: &EnumValues) -> (res: String)
    ensures
        res@ == enum_decl(name@, const_name@, *values),
{
    let mut labels: Vec<String> = Vec::new();
    match values {
        EnumValues::String(vals) => {
            let mut i: usize = 0;
            while i < vals.len()
                invariant
                    i <= vals.len(),
                    views(labels@) == views(vals@).take(i as int).map_values(
                        |v: Seq<char>| quoted(v),
                    ),
                decreases vals.len() - i,
            {
                let l = quote_str(vals[i].as_str());
                let ghost lv = l@;
                labels.push(l);
                assert(views(labels@) =~= views(vals@).take(i as int).map_values(
                    |v: Seq<char>| quoted(v),
                ).push(lv));
                assert(views(labels@) =~= views(vals@).take(i + 1).map_values(
                    |v: Seq<char>| quoted(v),
                ));
                i = i + 1;
            }
            assert(views(vals@).take(vals.len() as int) =~= views(vals@));
        },
        EnumValues::Integer(vals) => {
            let mut i: usize = 0;
            while i < vals.len()
                invariant
                    i <= vals.len(),
                    views(labels@) == vals@.take(i as int).map_values(
                        |n: NumValue| quoted(n.name@),
                    ),
                decreases vals.len() - i,
            {
                let l = quote_str(vals[i].name.as_str());
                let ghost lv = l@;
                labels.push(l);
                assert(views(labels@) =~= vals@.take(i as int).map_values(
                    |n: NumValue| quoted(n.name@),
                ).push(lv));
                assert(views(labels@) =~= vals@.take(i + 1).map_values(
                    |n: NumValue| quoted(n.name@),
                ));
                i = i + 1;
            }
            assert(vals@.take(vals.len() as int) =~= vals@);
        },
    }
    let mut out = String::new();
    push_str(&mut out, "export const ");
    push_str(&mut out, const_name);
    push_str(&mut out, " = pgEnum(\"");
    push_str(&mut out, name);
    push_str(&mut out, "\", [");
    let joined = join_strings(&labels, ", ");
    push_str(&mut out, joined.as_str());
    push_str(&mut out, "]);");
    out
}

/// The relation field name of a foreign-key column: `fk_col` without a
/// trailing `_id`.
pub fn infer_relation_field_name(fk_col: &str) -> (res: String)
    ensures
        res@ == relation_field(fk_col@),
{
    let cs = chars_of(fk_col);
    let suffix: Vec<char> = vec!['_', 'i', 'd'];
    if has_suffix(cs.as_slice(), suffix.as_slice()) {
        let mut out = String::new();
        let mut i: usize = 0;
        let n = cs.len() - 3;
        while i < n
            invariant
                n == cs.len() - 3,
                i <= n,
                out@ == cs@.take(i as int),
            decreases n - i,
        {
            push_char(&mut out, cs[i]);
            assert(out@ =~= cs@.take(i + 1));
            i = i + 1;
        }
        out
    } else {
        owned(fk_col)
    }
}

/// snake_case to camelCase (e.g. `user_profiles` to `userProfiles`).
pub fn to_camel_case(s: &str) -> (res: String)
    ensures
        res@ == camel(s@),
{
    let cs = chars_of(s);
    let mut result = String::new();
    let mut capitalize_next = false;
    let mut i: usize = 0;
    assert(cs@.skip(0) =~= cs@);
    while i < cs.len()
        invariant
            i <= cs.len(),
            cs@ == s@,
            result@ + camel_go(cs@.skip(i as int), i == 0, capitalize_next) == camel(s@),
        decreases cs.len() - i,
    {
        let ch = cs[i];
        let ghost before = result@;
        assert(cs@.skip(i as int).drop_first() =~= cs@.skip(i + 1));
        if ch == '_' {
            if i > 0 {
                capitalize_next = true;
            }
        } else if capitalize_next {
            let up = char_to_uppercase(ch);
            assert(up@ == upper(ch));
            push_str(&mut result, up.as_str());
            capitalize_next = false;
            assert(before + camel_go(cs@.skip(i as int), i == 0, true) =~= result@ + camel_go(
                cs@.skip(i + 1),
                false,
                false,
            ));
        } else {
            push_char(&mut result, ch);
            assert(before + camel_go(cs@.skip(i as int), i == 0, false) =~= result@ + camel_go(
                cs@.skip(i + 1),
                false,
                false,
            ));
        }
        i = i + 1;
    }
    assert(camel_go(cs@.skip(i as int), i == 0, capitalize_next) =~= Seq::<char>::empty());
    result
}

/// snake_case to PascalCase (e.g. `user_profiles` to `UserProfiles`).
pub fn to_pascal_case(s: &str) -> (res: String)
    ensures
        res@ == pascal(s@),
{
    let cs = chars_of(s);
    let mut result = String::new();
    let mut cap = true;
    let mut i: usize = 0;
    assert(cs@.skip(0) =~= cs@);
    while i < cs.len()
        invariant
            i <= cs.len(),
            cs@ == s@,
            result@ + pascal_go(cs@.skip(i as int), cap) == pascal(s@),
        decreases cs.len() - i,
    {
        let ch = cs[i];
        let ghost before = result@;
        assert(cs@.skip(i as int).drop_first() =~= cs@.skip(i + 1));
        if ch == '_' {
            cap = true;
        } else if cap {
            let up = char_to_uppercase(ch);
            assert(up@ == upper(ch));
            push_str(&mut result, up.as_str());
            cap = false;
            assert(before + pascal_go(cs@.skip(i as int), true) =~= result@ + pascal_go(
                cs@.skip(i + 1),
                false,
            ));
        } else {
            push_char(&mut result, ch);
            assert(before + pascal_go(cs@.skip(i as int), false) =~= result@ + pascal_go(
                cs@.skip(i + 1),
                false,
            ));
        }
        i = i + 1;
    }
    assert(pascal_go(cs@.skip(i as int), cap) =~= Seq::<char>::empty());
    result
}


proof fn lemma_camel_go_plain(s: Seq<char>, at_start: bool)
    requires
        !s.contains('_'),
    ensures
        camel_go(s, at_start, false) == s,
    decreases s.len(),
{
    if s.len() > 0 {
        assert(!s.drop_first().contains('_')) by {
            if s.drop_first().contains('_') {
                let k = choose|k: int| 0 <= k < s.drop_first().len() && s.drop_first()[k] == '_';
                assert(s[k + 1] == '_');
            }
        }
        assert(s[0] != '_');
        lemma_camel_go_plain(s.drop_first(), false);
        assert(seq![s[0]] + s.drop_first() =~= s);
    }
}

/// A name without underscores is its own camelCase form.
pub proof fn lemma_camel_keeps_plain_names(s: Seq<char>)
    requires
        !s.contains('_'),
    ensures
        camel(s) == s,
{
    lemma_camel_go_plain(s, true);
}

proof fn lemma_camel_go_is_pascal_go(s: Seq<char>, cap: bool)
    ensures
        camel_go(s, false, cap) == pascal_go(s, cap),
    decreases s.len(),
{
    if s.len() > 0 {
        lemma_camel_go_is_pascal_go(s.drop_first(), s[0] == '_' || (cap && false));
        lemma_camel_go_is_pascal_go(s.drop_first(), false);
        lemma_camel_go_is_pascal_go(s.drop_first(), true);
    }
}

/// A non-empty string with its first character uppercased.
pub open spec fn capitalized(c: Seq<char>) -> Seq<char> {
    if c.len() == 0 {
        c
    } else {
        upper(c[0]) + c.drop_first()
    }
}

proof fn lemma_pascal_after_underscores(t: Seq<char>)
    requires
        all_ascii(t),
    ensures
        pascal_go(t, true) == capitalized(camel_go(t, false, true)),
    decreases t.len(),
{
    if t.len() > 0 {
        assert(all_ascii(t.drop_first())) by {
            assert forall|i: int| 0 <= i < t.drop_first().len() implies (t.drop_first()[i] as u32)
                < 128 by {
                assert(t.drop_first()[i] == t[i + 1]);
            }
        }
        if t[0] == '_' {
            lemma_pascal_after_underscores(t.drop_first());
        } else {
            lemma_camel_go_is_pascal_go(t.drop_first(), false);
            lemma_ascii_upper(t[0]);
            let u = ascii_upper(t[0]);
            let rest = pascal_go(t.drop_first(), false);
            assert(camel_go(t, false, true) == seq![u] + rest);
            assert((seq![u] + rest)[0] == u);
            assert((seq![u] + rest).drop_first() =~= rest);
        }
    }
}

/// The PascalCase form of a name is its camelCase form with the first
/// character uppercased. This holds for every ASCII name, and for every name
/// that does not start with two underscores.
pub proof fn lemma_pascal_is_capitalized_camel(s: Seq<char>)
    requires
        all_ascii(s) || !(s.len() >= 2 && s[0] == '_' && s[1] == '_'),
    ensures
        pascal(s) == capitalized(camel(s)),
{
    if s.len() == 0 {
    } else if s[0] != '_' {
        lemma_camel_go_is_pascal_go(s.drop_first(), false);
        let rest = camel_go(s.drop_first(), false, false);
        assert(camel(s) == seq![s[0]] + rest);
        assert((seq![s[0]] + rest)[0] == s[0]);
        assert((seq![s[0]] + rest).drop_first() =~= rest);
        assert(pascal(s) == upper(s[0]) + pascal_go(s.drop_first(), false));
    } else if s.len() == 1 {
        assert(camel(s) == camel_go(s.drop_first(), false, false));
        assert(pascal(s) == pascal_go(s.drop_first(), true));
    } else if s[1] != '_' {
        let t = s.drop_first();
        lemma_camel_go_is_pascal_go(t.drop_first(), false);
        let rest = camel_go(t.drop_first(), false, false);
        assert(camel(s) == camel_go(t, false, false));
        assert(camel_go(t, false, false) == seq![t[0]] + rest);
        assert((seq![t[0]] + rest)[0] == t[0]);
        assert((seq![t[0]] + rest).drop_first() =~= rest);
        assert(pascal(s) == pascal_go(t, true));
        assert(pascal_go(t, true) == upper(t[0]) + pascal_go(t.drop_first(), false));
    } else {
        let t = s.drop_first().drop_first();
        assert(all_ascii(t)) by {
            assert forall|i: int| 0 <= i < t.len() implies (t[i] as u32) < 128 by {
                assert(t[i] == s[i + 2]);
            }
        }
        lemma_pascal_after_underscores(t);
        let s1 = s.drop_first();
        assert(s1.drop_first() =~= t);
        assert(s1[0] == '_');
        assert(camel_go(s, true, false) == camel_go(s1, false, false));
        assert(camel_go(s1, false, false) == camel_go(t, false, true));
        assert(pascal_go(s, true) == pascal_go(s1, true));
        assert(pascal_go(s1, true) == pascal_go(t, true));
    }
}

proof fn lemma_camel_go_ascii(s: Seq<char>, at_start: bool, cap: bool)
    requires
        all_ascii(s),
    ensures
        all_ascii(camel_go(s, at_start, cap)),
        !camel_go(s, at_start, cap).contains('_'),
    decreases s.len(),
{
    if s.len() > 0 {
        let t = s.drop_first();
        assert(all_ascii(t)) by {
            assert forall|i: int| 0 <= i < t.len() implies (t[i] as u32) < 128 by {
                assert(t[i] == s[i + 1]);
            }
        }
        lemma_camel_go_ascii(t, false, false);
        lemma_camel_go_ascii(t, false, cap || !at_start);
        if s[0] != '_' {
            lemma_ascii_upper(s[0]);
            let head = if cap {
                seq![ascii_upper(s[0])]
            } else {
                seq![s[0]]
            };
            let r = camel_go(t, false, false);
            assert(camel_go(s, at_start, cap) == head + r);
            assert forall|i: int| 0 <= i < (head + r).len() implies ((head + r)[i] as u32) < 128
                && (head + r)[i] != '_' by {
                if i > 0 {
                    assert((head + r)[i] == r[i - 1]);
                    assert(r.contains(r[i - 1]));
                }
            }
        }
    }
}

/// The camelCase form of an ASCII name is ASCII and holds no underscore, so
/// converting it again changes nothing.
pub proof fn lemma_camel_idempotent(s: Seq<char>)
    requires
        all_ascii(s),
    ensures
        !camel(s).contains('_'),
        camel(camel(s)) == camel(s),
{
    lemma_camel_go_ascii(s, true, false);
    lemma_camel_go_plain(camel(s), true);
}

/// The PascalCase form of an ASCII name holds no underscore, and converting it
/// again changes nothing.
pub proof fn lemma_pascal_idempotent(s: Seq<char>)
    requires
        all_ascii(s),
    ensures
        !pascal(s).contains('_'),
        pascal(pascal(s)) == pascal(s),
{
    lemma_pascal_is_capitalized_camel(s);
    lemma_camel_go_ascii(s, true, false);
    let c = camel(s);
    if c.len() > 0 {
        lemma_ascii_upper(c[0]);
        assert(c.contains(c[0]));
        let u = ascii_upper(c[0]);
        let rest = c.drop_first();
        let p = seq![u] + rest;
        assert(pascal(s) == p);
        assert(!rest.contains('_')) by {
            if rest.contains('_') {
                let k = choose|k: int| 0 <= k < rest.len() && rest[k] == '_';
                assert(c[k + 1] == '_');
            }
        }
        assert(!p.contains('_')) by {
            if p.contains('_') {
                let k = choose|k: int| 0 <= k < p.len() && p[k] == '_';
                if k > 0 {
                    assert(rest[k - 1] == '_');
                }
            }
        }
        lemma_ascii_upper(u);
        assert(p.drop_first() =~= rest);
        lemma_camel_go_is_pascal_go(rest, false);
        lemma_camel_go_plain(rest, false);
        assert(pascal_go(p, true) == upper(u) + pascal_go(rest, false));
    }
}

} // verus!
