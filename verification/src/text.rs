//! Character-level string helpers used by the code generators.

use vstd::prelude::*;

verus! {

/// `parts` joined with `sep` between consecutive parts.
pub open spec fn join(parts: Seq<Seq<char>>, sep: Seq<char>) -> Seq<char>
    decreases parts.len(),
{
    if parts.len() == 0 {
        Seq::empty()
    } else if parts.len() == 1 {
        parts[0]
    } else {
        join(parts.drop_last(), sep) + sep + parts.last()
    }
}

/// The character sequences of a list of owned strings.
pub open spec fn views(v: Seq<String>) -> Seq<Seq<char>> {
    v.map_values(|s: String| s@)
}

/// Appends one character (`String::push`).
#[verifier::external_body]
pub(crate) fn push_char(s: &mut String, c: char)
    ensures
        final(s)@ == old(s)@.push(c),
{
    s.push(c);
}

/// A new string holding `s`.
pub fn owned(s: &str) -> (res: String)
    ensures
        res@ == s@,
{
    String::from_str(s)
}

/// The characters of `s`, in order.
pub fn chars_of(s: &str) -> (res: Vec<char>)
    ensures
        res@ == s@,
{
    broadcast use vstd::string::group_string_axioms;
    let mut out: Vec<char> = Vec::new();
    for c in it: s.chars()
        invariant
            out@ == it.seq().take(it.index()),
            it.seq() == s@,
    {
        out.push(c);
        assert(out@ =~= it.seq().take(it.index() + 1));
    }
    assert(out@ =~= s@);
    out
}

/// Joins owned strings with a separator.
pub fn join_strings(parts: &Vec<String>, sep: &str) -> (res: String)
    ensures
        res@ == join(views(parts@), sep@),
{
    let mut res = String::new();
    let ghost vs = views(parts@);
    let mut i: usize = 0;
    while i < parts.len()
        invariant
            i <= parts.len(),
            vs == views(parts@),
            res@ == join(vs.take(i as int), sep@),
        decreases parts.len() - i,
    {
        if i != 0 {
            res.append(sep);
        }
        res.append(parts[i].as_str());
        assert(vs.take(i + 1).drop_last() =~= vs.take(i as int));
        i = i + 1;
    }
    assert(vs.take(parts.len() as int) =~= vs);
    res
}


/// Builds a string from characters.
pub fn string_from(v: &[char]) -> (res: String)
    ensures
        res@ == v@,
{
    let mut res = String::new();
    let mut i: usize = 0;
    while i < v.len()
        invariant
            i <= v.len(),
            res@ == v@.take(i as int),
        decreases v.len() - i,
    {
        push_char(&mut res, v[i]);
        assert(res@ =~= v@.take(i + 1));
        i = i + 1;
    }
    assert(v@.take(v.len() as int) =~= v@);
    res
}

/// Whether two character sequences are equal.
pub fn chars_eq(a: &[char], b: &[char]) -> (res: bool)
    ensures
        res == (a@ == b@),
{
    if a.len() != b.len() {
        return false;
    }
    let mut i: usize = 0;
    while i < a.len()
        invariant
            a.len() == b.len(),
            i <= a.len(),
            forall|j: int| 0 <= j < i ==> a@[j] == b@[j],
        decreases a.len() - i,
    {
        if a[i] != b[i] {
            return false;
        }
        i = i + 1;
    }
    assert(a@ =~= b@);
    true
}

/// `p` occurs in `s` starting at index `at`.
pub open spec fn occurs_at(s: Seq<char>, p: Seq<char>, at: int) -> bool {
    0 <= at && at + p.len() <= s.len() && s.subrange(at, at + p.len()) == p
}

/// `s` begins with `p`.
pub open spec fn starts_with(s: Seq<char>, p: Seq<char>) -> bool {
    occurs_at(s, p, 0)
}

/// `s` ends with `p`.
pub open spec fn ends_with(s: Seq<char>, p: Seq<char>) -> bool {
    occurs_at(s, p, s.len() - p.len())
}

/// `p` occurs somewhere in `s`.
pub open spec fn contains(s: Seq<char>, p: Seq<char>) -> bool {
    exists|at: int| occurs_at(s, p, at)
}

/// `p` occurs in `x + p + y`.
pub proof fn lemma_contains_middle(x: Seq<char>, p: Seq<char>, y: Seq<char>)
    ensures
        contains(x + p + y, p),
{
    assert((x + p + y).subrange(x.len() as int, (x.len() + p.len()) as int) =~= p);
    assert(occurs_at(x + p + y, p, x.len() as int));
}

/// A string that occurs in `s` occurs in `a + s + b`.
pub proof fn lemma_contains_within(a: Seq<char>, s: Seq<char>, b: Seq<char>, p: Seq<char>)
    requires
        contains(s, p),
    ensures
        contains(a + s + b, p),
{
    let at = choose|at: int| occurs_at(s, p, at);
    assert((a + s + b).subrange(a.len() + at, a.len() + at + p.len()) =~= s.subrange(
        at,
        at + p.len(),
    ));
    assert(occurs_at(a + s + b, p, a.len() + at));
}

/// What occurs in a string that occurs in `s` occurs in `s`.
pub proof fn lemma_contains_trans(s: Seq<char>, q: Seq<char>, p: Seq<char>)
    requires
        contains(s, q),
        contains(q, p),
    ensures
        contains(s, p),
{
    let a = choose|at: int| occurs_at(s, q, at);
    let b = choose|at: int| occurs_at(q, p, at);
    assert(s.subrange(a + b, a + b + p.len()) =~= q.subrange(b, b + p.len()));
    assert(occurs_at(s, p, a + b));
}

/// A joined list begins with its first part.
pub proof fn lemma_join_head(parts: Seq<Seq<char>>, sep: Seq<char>)
    requires
        parts.len() > 0,
    ensures
        join(parts, sep).len() >= parts[0].len(),
        join(parts, sep).subrange(0, parts[0].len() as int) == parts[0],
    decreases parts.len(),
{
    if parts.len() == 1 {
        assert(join(parts, sep).subrange(0, parts[0].len() as int) =~= parts[0]);
    } else {
        let d = parts.drop_last();
        lemma_join_head(d, sep);
        assert(d[0] == parts[0]);
        let j = join(d, sep);
        assert(join(parts, sep) == j + sep + parts.last());
        assert((j + sep + parts.last()).subrange(0, parts[0].len() as int) =~= j.subrange(
            0,
            parts[0].len() as int,
        ));
    }
}

/// Every part of a joined list occurs in it.
pub proof fn lemma_join_contains(parts: Seq<Seq<char>>, sep: Seq<char>, i: int)
    requires
        0 <= i < parts.len(),
    ensures
        contains(join(parts, sep), parts[i]),
    decreases parts.len(),
{
    if parts.len() == 1 {
        lemma_contains_middle(Seq::empty(), parts[0], Seq::empty());
        assert(Seq::<char>::empty() + parts[0] + Seq::<char>::empty() =~= parts[0]);
    } else {
        let d = parts.drop_last();
        let j = join(d, sep);
        if i == parts.len() - 1 {
            lemma_contains_middle(j + sep, parts.last(), Seq::empty());
            assert(j + sep + parts.last() + Seq::<char>::empty() =~= j + sep + parts.last());
        } else {
            lemma_join_contains(d, sep, i);
            assert(d[i] == parts[i]);
            lemma_contains_within(Seq::empty(), j, sep + parts.last(), parts[i]);
            assert(Seq::<char>::empty() + j + (sep + parts.last()) =~= j + sep + parts.last());
        }
    }
}

/// `x + p` ends with `p`.
pub proof fn lemma_ends_with_suffix(x: Seq<char>, p: Seq<char>)
    ensures
        ends_with(x + p, p),
{
    assert((x + p).subrange(x.len() as int, (x + p).len() as int) =~= p);
}

/// Whether `p` occurs in `s` at index `at`.
pub fn matches_at(s: &[char], p: &[char], at: usize) -> (res: bool)
    ensures
        res == occurs_at(s@, p@, at as int),
{
    if at > s.len() || p.len() > s.len() - at {
        return false;
    }
    let mut i: usize = 0;
    while i < p.len()
        invariant
            at + p.len() <= s.len(),
            i <= p.len(),
            forall|j: int| 0 <= j < i ==> s@[at + j] == p@[j],
        decreases p.len() - i,
    {
        if s[at + i] != p[i] {
            assert(s@.subrange(at as int, at + p.len())[i as int] != p@[i as int]);
            return false;
        }
        i = i + 1;
    }
    assert(s@.subrange(at as int, at + p.len()) =~= p@);
    true
}

/// Whether `s` begins with `p`.
pub fn has_prefix(s: &[char], p: &[char]) -> (res: bool)
    ensures
        res == starts_with(s@, p@),
{
    matches_at(s, p, 0)
}

/// Whether `s` ends with `p`.
pub fn has_suffix(s: &[char], p: &[char]) -> (res: bool)
    ensures
        res == ends_with(s@, p@),
{
    if p.len() > s.len() {
        return false;
    }
    matches_at(s, p, s.len() - p.len())
}

/// Whether `p` occurs anywhere in `s`.
pub fn has_infix(s: &[char], p: &[char]) -> (res: bool)
    ensures
        res == contains(s@, p@),
{
    if p.len() > s.len() {
        return false;
    }
    let last = s.len() - p.len();
    let mut at: usize = 0;
    loop
        invariant
            last == s.len() - p.len(),
            at <= last,
            forall|k: int| 0 <= k < at ==> !occurs_at(s@, p@, k),
        ensures
            forall|k: int| 0 <= k <= last ==> !occurs_at(s@, p@, k),
        decreases last - at,
    {
        if matches_at(s, p, at) {
            return true;
        }
        if at == last {
            break;
        }
        at = at + 1;
    }
    assert forall|k: int| !occurs_at(s@, p@, k) by {
        if 0 <= k && k + p@.len() <= s@.len() {
            assert(k <= last);
        }
    }
    false
}

/// Whether the character `c` occurs in `s`.
pub fn has_char(s: &[char], c: char) -> (res: bool)
    ensures
        res == s@.contains(c),
{
    let mut i: usize = 0;
    while i < s.len()
        invariant
            i <= s.len(),
            forall|j: int| 0 <= j < i ==> s@[j] != c,
        decreases s.len() - i,
    {
        if s[i] == c {
            assert(s@[i as int] == c);
            return true;
        }
        i = i + 1;
    }
    false
}

/// `s` with every occurrence of `c` replaced by `r`.
pub open spec fn replace_char(s: Seq<char>, c: char, r: Seq<char>) -> Seq<char>
    decreases s.len(),
{
    if s.len() == 0 {
        Seq::empty()
    } else {
        replace_char(s.drop_last(), c, r) + if s.last() == c {
            r
        } else {
            seq![s.last()]
        }
    }
}

/// Replaces every occurrence of `c` in `s` by `r`.
pub fn replace_all(s: &[char], c: char, r: &[char]) -> (res: Vec<char>)
    ensures
        res@ == replace_char(s@, c, r@),
{
    let mut out: Vec<char> = Vec::new();
    let mut i: usize = 0;
    while i < s.len()
        invariant
            i <= s.len(),
            out@ == replace_char(s@.take(i as int), c, r@),
        decreases s.len() - i,
    {
        let ghost before = out@;
        if s[i] == c {
            let mut j: usize = 0;
            while j < r.len()
                invariant
                    j <= r.len(),
                    out@ == before + r@.take(j as int),
                decreases r.len() - j,
            {
                out.push(r[j]);
                assert(out@ =~= before + r@.take(j + 1));
                j = j + 1;
            }
            assert(r@.take(r.len() as int) =~= r@);
        } else {
            out.push(s[i]);
        }
        assert(s@.take(i + 1).drop_last() =~= s@.take(i as int));
        i = i + 1;
    }
    assert(s@.take(s.len() as int) =~= s@);
    out
}

/// `s` with leading characters satisfying `p` removed.
pub open spec fn strip_front(s: Seq<char>, p: spec_fn(char) -> bool) -> Seq<char>
    decreases s.len(),
{
    if s.len() > 0 && p(s[0]) {
        strip_front(s.drop_first(), p)
    } else {
        s
    }
}

/// `s` with trailing characters satisfying `p` removed.
pub open spec fn strip_back(s: Seq<char>, p: spec_fn(char) -> bool) -> Seq<char>
    decreases s.len(),
{
    if s.len() > 0 && p(s.last()) {
        strip_back(s.drop_last(), p)
    } else {
        s
    }
}

/// `s` with leading and trailing characters satisfying `p` removed.
pub open spec fn trim_with(s: Seq<char>, p: spec_fn(char) -> bool) -> Seq<char> {
    strip_back(strip_front(s, p), p)
}

/// Whether `c` is a single or a double quote.
pub open spec fn is_quote(c: char) -> bool {
    c == '\'' || c == '"'
}

/// Whether `c` has the Unicode `White_Space` property (as listed in the
/// Unicode Character Database, PropList.txt), which `char::is_whitespace`
/// tests and `str::trim` strips.
pub open spec fn white_space(c: char) -> bool {
    let u = c as u32;
    (9 <= u && u <= 13) || u == 32 || u == 0x85 || u == 0xA0 || u == 0x1680 || (0x2000 <= u
        && u <= 0x200A) || u == 0x2028 || u == 0x2029 || u == 0x202F || u == 0x205F || u == 0x3000
}

/// Whether `c` has the Unicode `White_Space` property.
pub fn is_white_space(c: char) -> (res: bool)
    ensures
        res == white_space(c),
{
    let u = c as u32;
    (9 <= u && u <= 13) || u == 32 || u == 0x85 || u == 0xA0 || u == 0x1680 || (0x2000 <= u
        && u <= 0x200A) || u == 0x2028 || u == 0x2029 || u == 0x202F || u == 0x205F || u == 0x3000
}

/// Whether the predicate selected by `quotes` holds of `c`.
pub open spec fn trim_pred(quotes: bool) -> spec_fn(char) -> bool {
    if quotes {
        |c: char| is_quote(c)
    } else {
        |c: char| white_space(c)
    }
}

fn trim_pred_exec(quotes: bool, c: char) -> (res: bool)
    ensures
        res == (trim_pred(quotes))(c),
{
    if quotes {
        c == '\'' || c == '"'
    } else {
        is_white_space(c)
    }
}

/// Removes leading and trailing quotes (when `quotes`) or whitespace (otherwise).
fn trim_by(s: &[char], quotes: bool) -> (res: Vec<char>)
    ensures
        res@ == trim_with(s@, trim_pred(quotes)),
{
    let ghost p = trim_pred(quotes);
    assert(s@.subrange(0, s.len() as int) =~= s@);
    let mut i: usize = 0;
    while i < s.len() && trim_pred_exec(quotes, s[i])
        invariant
            i <= s.len(),
            p == trim_pred(quotes),
            strip_front(s@, p) == strip_front(s@.subrange(i as int, s.len() as int), p),
        decreases s.len() - i,
    {
        assert(s@.subrange(i as int, s.len() as int).drop_first() =~= s@.subrange(
            i + 1,
            s.len() as int,
        ));
        i = i + 1;
    }
    let ghost front = s@.subrange(i as int, s.len() as int);
    assert(strip_front(front, p) == front);
    let mut j: usize = s.len();
    while j > i && trim_pred_exec(quotes, s[j - 1])
        invariant
            i <= j <= s.len(),
            p == trim_pred(quotes),
            front == s@.subrange(i as int, s.len() as int),
            strip_back(front, p) == strip_back(s@.subrange(i as int, j as int), p),
        decreases j,
    {
        assert(s@.subrange(i as int, j as int).drop_last() =~= s@.subrange(
            i as int,
            j - 1,
        ));
        j = j - 1;
    }
    let mut out: Vec<char> = Vec::new();
    let mut k: usize = i;
    while k < j
        invariant
            i <= k <= j,
            j <= s.len(),
            out@ == s@.subrange(i as int, k as int),
        decreases j - k,
    {
        out.push(s[k]);
        assert(out@ =~= s@.subrange(i as int, k + 1));
        k = k + 1;
    }
    out
}

/// `s` without leading and trailing Unicode whitespace.
pub open spec fn trim_ws(s: Seq<char>) -> Seq<char> {
    trim_with(s, |c: char| white_space(c))
}

/// `s` without leading and trailing single and double quotes.
pub open spec fn trim_quote_chars(s: Seq<char>) -> Seq<char> {
    trim_with(s, |c: char| is_quote(c))
}

/// `str::trim`: `s` without leading and trailing Unicode whitespace.
pub fn trim_whitespace(s: &[char]) -> (res: Vec<char>)
    ensures
        res@ == trim_ws(s@),
{
    trim_by(s, false)
}

/// `s` without leading and trailing single and double quotes.
pub fn trim_quotes(s: &[char]) -> (res: Vec<char>)
    ensures
        res@ == trim_quote_chars(s@),
{
    trim_by(s, true)
}


/// The ASCII lowercase form of a character; other characters are unchanged.
pub open spec fn ascii_lower(c: char) -> char {
    if 'A' <= c && c <= 'Z' {
        ((c as u32) + 32) as char
    } else {
        c
    }
}

/// The ASCII uppercase form of a character; other characters are unchanged.
pub open spec fn ascii_upper(c: char) -> char {
    if 'a' <= c && c <= 'z' {
        ((c as u32) - 32) as char
    } else {
        c
    }
}

/// Every character of `s` is ASCII.
pub open spec fn all_ascii(s: Seq<char>) -> bool {
    forall|i: int| 0 <= i < s.len() ==> (s[i] as u32) < 128
}

/// The Unicode lowercase form of a string, as `str::to_lowercase` computes it.
pub uninterp spec fn lowercase_of(s: Seq<char>) -> Seq<char>;

/// The Unicode uppercase mapping of a character, as `char::to_uppercase` yields it.
pub uninterp spec fn uppercase_of(c: char) -> Seq<char>;

/// `str::to_lowercase`. The result is named by `lowercase_of`; on an all-ASCII
/// string it is the character-wise ASCII lowercase form, as the Unicode
/// lowercase mapping of an ASCII letter is its ASCII lowercase letter.
#[verifier::external_body]
pub(crate) fn to_lowercase(s: &str) -> (res: String)
    ensures
        res@ == lowercase_of(s@),
        all_ascii(s@) ==> res@ == s@.map_values(|c: char| ascii_lower(c)),
{
    s.to_lowercase()
}

/// `char::to_uppercase`, collected into a string. The result is named by
/// `uppercase_of`; for an ASCII character it is its ASCII uppercase form.
#[verifier::external_body]
pub(crate) fn char_to_uppercase(c: char) -> (res: String)
    ensures
        res@ == uppercase_of(c),
        (c as u32) < 128 ==> res@ == seq![ascii_upper(c)],
{
    c.to_uppercase().collect()
}

/// The uppercase form of a character as `char::to_uppercase` yields it: the
/// ASCII uppercase form of an ASCII character, the Unicode mapping otherwise.
pub open spec fn upper(c: char) -> Seq<char> {
    if (c as u32) < 128 {
        seq![ascii_upper(c)]
    } else {
        uppercase_of(c)
    }
}

/// The ASCII uppercase form of an ASCII character is ASCII, is an underscore
/// only for an underscore, and is its own ASCII uppercase form.
pub(crate) proof fn lemma_ascii_upper(c: char)
    requires
        (c as u32) < 128,
    ensures
        (ascii_upper(c) as u32) < 128,
        (ascii_upper(c) == '_') == (c == '_'),
        ascii_upper(ascii_upper(c)) == ascii_upper(c),
{
}

/// The decimal digit character for `d` (`0 <= d < 10`).
pub open spec fn digit_char(d: int) -> char {
    (d + 48) as char
}

/// The decimal representation of `n`, without leading zeros.
pub open spec fn decimal(n: nat) -> Seq<char>
    decreases n,
{
    if n < 10 {
        seq![digit_char(n as int)]
    } else {
        decimal(n / 10).push(digit_char((n % 10) as int))
    }
}

/// The decimal representation of `i`, with a leading `-` when negative.
pub open spec fn signed_decimal(i: int) -> Seq<char> {
    if i < 0 {
        seq!['-'] + decimal((-i) as nat)
    } else {
        decimal(i as nat)
    }
}

/// Appends the decimal representation of `n` (as `Display` writes it).
pub fn push_decimal(out: &mut String, n: u64)
    ensures
        final(out)@ == old(out)@ + decimal(n as nat),
    decreases n,
{
    if n >= 10 {
        push_decimal(out, n / 10);
    }
    let d: u8 = (n % 10) as u8;
    let c: char = (d + 48) as char;
    assert(c == digit_char((n % 10) as int));
    push_char(out, c);
    assert(decimal(n as nat) =~= if n < 10 {
        Seq::<char>::empty().push(c)
    } else {
        decimal((n / 10) as nat).push(c)
    });
}

/// Appends the decimal representation of a signed `v` (as `Display` writes it).
pub fn push_signed_decimal(out: &mut String, v: i64)
    ensures
        final(out)@ == old(out)@ + signed_decimal(v as int),
{
    if v < 0 {
        push_char(out, '-');
        let m: u64 = (0i128 - v as i128) as u64;
        push_decimal(out, m);
    } else {
        push_decimal(out, v as u64);
    }
}

/// Whether `c` is an ASCII decimal digit.
pub open spec fn is_digit(c: char) -> bool {
    '0' <= c && c <= '9'
}

/// Whether `c` is `+` or `-`.
pub open spec fn is_sign(c: char) -> bool {
    c == '+' || c == '-'
}

/// The number of leading ASCII digits of `s`.
pub open spec fn lead_digits(s: Seq<char>) -> nat
    decreases s.len(),
{
    if s.len() > 0 && is_digit(s[0]) {
        1 + lead_digits(s.drop_first())
    } else {
        0
    }
}

/// `s` is a non-empty run of ASCII digits, optionally preceded by a sign.
pub open spec fn signed_digits(s: Seq<char>) -> bool {
    let body = if s.len() > 0 && is_sign(s[0]) {
        s.drop_first()
    } else {
        s
    };
    body.len() > 0 && lead_digits(body) == body.len()
}

/// `s` is an exponent: `e` or `E`, then an optionally signed run of digits.
pub open spec fn exponent_part(s: Seq<char>) -> bool {
    s.len() > 0 && (s[0] == 'e' || s[0] == 'E') && signed_digits(s.drop_first())
}

/// `s` is a decimal number: `Digit+`, `Digit+ '.' Digit*` or `Digit* '.' Digit+`,
/// optionally followed by an exponent.
pub open spec fn number_part(s: Seq<char>) -> bool {
    let k = lead_digits(s);
    let rest = s.skip(k as int);
    if rest.len() > 0 && rest[0] == '.' {
        let frac = rest.drop_first();
        let k2 = lead_digits(frac);
        (k > 0 || k2 > 0) && (k2 == frac.len() || exponent_part(frac.skip(k2 as int)))
    } else {
        k > 0 && (rest.len() == 0 || exponent_part(rest))
    }
}

/// `s`, ASCII-lowercased, is `inf`, `infinity` or `nan`.
pub open spec fn special_float(s: Seq<char>) -> bool {
    let l = s.map_values(|c: char| ascii_lower(c));
    l == seq!['i', 'n', 'f'] || l == seq!['i', 'n', 'f', 'i', 'n', 'i', 't', 'y'] || l == seq![
        'n',
        'a',
        'n',
    ]
}

/// The grammar that the documentation of `f64`'s `FromStr` gives for the
/// strings it accepts: an optional sign, then `inf`, `infinity`, `nan`
/// (case-insensitively) or a decimal number with an optional exponent.
pub open spec fn float_literal(s: Seq<char>) -> bool {
    let body = if s.len() > 0 && is_sign(s[0]) {
        s.drop_first()
    } else {
        s
    };
    special_float(body) || number_part(body)
}

/// The suffix of `s` from index `from`.
pub fn tail(s: &[char], from: usize) -> (res: Vec<char>)
    requires
        from <= s.len(),
    ensures
        res@ == s@.skip(from as int),
{
    let mut out: Vec<char> = Vec::new();
    let mut i: usize = from;
    while i < s.len()
        invariant
            from <= i <= s.len(),
            out@ == s@.subrange(from as int, i as int),
        decreases s.len() - i,
    {
        out.push(s[i]);
        assert(out@ =~= s@.subrange(from as int, i + 1));
        i = i + 1;
    }
    assert(out@ =~= s@.skip(from as int));
    out
}

/// The number of leading ASCII digits of `s`.
fn count_lead_digits(s: &[char]) -> (res: usize)
    ensures
        res == lead_digits(s@),
        res <= s.len(),
{
    let mut i: usize = 0;
    assert(s@.skip(0) =~= s@);
    while i < s.len() && '0' <= s[i] && s[i] <= '9'
        invariant
            i <= s.len(),
            lead_digits(s@) == i + lead_digits(s@.skip(i as int)),
        decreases s.len() - i,
    {
        assert(s@.skip(i as int).drop_first() =~= s@.skip(i + 1));
        i = i + 1;
    }
    i
}

fn is_signed_digits(s: &[char]) -> (res: bool)
    ensures
        res == signed_digits(s@),
{
    let body = if s.len() > 0 && (s[0] == '+' || s[0] == '-') {
        tail(s, 1)
    } else {
        tail(s, 0)
    };
    assert(s@.skip(0) =~= s@);
    body.len() > 0 && count_lead_digits(body.as_slice()) == body.len()
}

fn is_exponent(s: &[char]) -> (res: bool)
    ensures
        res == exponent_part(s@),
{
    if s.len() > 0 && (s[0] == 'e' || s[0] == 'E') {
        let rest = tail(s, 1);
        is_signed_digits(rest.as_slice())
    } else {
        false
    }
}

fn is_number(s: &[char]) -> (res: bool)
    ensures
        res == number_part(s@),
{
    let k = count_lead_digits(s);
    let rest = tail(s, k);
    if rest.len() > 0 && rest[0] == '.' {
        let frac = tail(rest.as_slice(), 1);
        let k2 = count_lead_digits(frac.as_slice());
        if k == 0 && k2 == 0 {
            return false;
        }
        if k2 == frac.len() {
            return true;
        }
        let after = tail(frac.as_slice(), k2);
        is_exponent(after.as_slice())
    } else {
        k > 0 && (rest.len() == 0 || is_exponent(rest.as_slice()))
    }
}

fn ascii_lowered(s: &[char]) -> (res: Vec<char>)
    ensures
        res@ == s@.map_values(|c: char| ascii_lower(c)),
{
    let mut out: Vec<char> = Vec::new();
    let mut i: usize = 0;
    while i < s.len()
        invariant
            i <= s.len(),
            out@ == s@.take(i as int).map_values(|c: char| ascii_lower(c)),
        decreases s.len() - i,
    {
        let c = s[i];
        let l = if 'A' <= c && c <= 'Z' {
            ((c as u8) + 32) as char
        } else {
            c
        };
        assert(l == ascii_lower(c));
        out.push(l);
        assert(out@ =~= s@.take(i + 1).map_values(|c: char| ascii_lower(c)));
        i = i + 1;
    }
    assert(s@.take(s.len() as int) =~= s@);
    out
}

/// Whether `s` parses as an `f64` (the grammar of `float_literal`).
pub fn parses_as_float(s: &[char]) -> (res: bool)
    ensures
        res == float_literal(s@),
{
    let body = if s.len() > 0 && (s[0] == '+' || s[0] == '-') {
        tail(s, 1)
    } else {
        tail(s, 0)
    };
    assert(s@.skip(0) =~= s@);
    let l = ascii_lowered(body.as_slice());
    let inf: Vec<char> = vec!['i', 'n', 'f'];
    let infinity: Vec<char> = vec!['i', 'n', 'f', 'i', 'n', 'i', 't', 'y'];
    let nan: Vec<char> = vec!['n', 'a', 'n'];
    if chars_eq(l.as_slice(), inf.as_slice()) || chars_eq(l.as_slice(), infinity.as_slice())
        || chars_eq(l.as_slice(), nan.as_slice()) {
        return true;
    }
    is_number(body.as_slice())
}

/// `s` split into lines as `str::lines` splits it, `cur` being the part of the
/// current line already read: lines end at `\n`, a `\r` just before that `\n`
/// is dropped, and a last line without `\n` is kept when it is not empty.
pub open spec fn split_lines(s: Seq<char>, cur: Seq<char>) -> Seq<Seq<char>>
    decreases s.len(),
{
    if s.len() == 0 {
        if cur.len() == 0 {
            Seq::empty()
        } else {
            seq![cur]
        }
    } else if s[0] == '\n' {
        seq![drop_cr(cur)] + split_lines(s.drop_first(), Seq::empty())
    } else {
        split_lines(s.drop_first(), cur.push(s[0]))
    }
}

/// `l` without one trailing `\r`.
pub open spec fn drop_cr(l: Seq<char>) -> Seq<char> {
    if l.len() > 0 && l.last() == '\r' {
        l.drop_last()
    } else {
        l
    }
}

/// The lines of `s`, as `str::lines` yields them.
pub open spec fn lines(s: Seq<char>) -> Seq<Seq<char>> {
    split_lines(s, Seq::empty())
}

/// Splits `s` into its lines.
pub fn lines_of(s: &[char]) -> (res: Vec<Vec<char>>)
    ensures
        res@.map_values(|l: Vec<char>| l@) == lines(s@),
{
    let mut out: Vec<Vec<char>> = Vec::new();
    let mut cur: Vec<char> = Vec::new();
    let mut i: usize = 0;
    assert(s@.skip(0) =~= s@);
    while i < s.len()
        invariant
            i <= s.len(),
            out@.map_values(|l: Vec<char>| l@) + split_lines(s@.skip(i as int), cur@) == lines(
                s@,
            ),
        decreases s.len() - i,
    {
        let ghost before = out@.map_values(|l: Vec<char>| l@);
        assert(s@.skip(i as int).drop_first() =~= s@.skip(i + 1));
        let ghost old_cur = cur@;
        if s[i] == '\n' {
            let mut line = cur;
            if line.len() > 0 && line[line.len() - 1] == '\r' {
                line.pop();
            }
            assert(line@ =~= drop_cr(cur@));
            out.push(line);
            cur = Vec::new();
            assert(out@.map_values(|l: Vec<char>| l@) =~= before.push(drop_cr(old_cur)));
        } else {
            cur.push(s[i]);
        }
        i = i + 1;
    }
    if cur.len() > 0 {
        out.push(cur);
    }
    out
}


/// Whether two strings are equal.
pub fn str_eq(a: &str, b: &str) -> (res: bool)
    ensures
        res == (a@ == b@),
{
    let x = chars_of(a);
    let y = chars_of(b);
    chars_eq(x.as_slice(), y.as_slice())
}

/// Whether `v` is one of the strings `vs`.
pub fn contains_string(vs: &Vec<String>, v: &[char]) -> (res: bool)
    ensures
        res == views(vs@).contains(v@),
{
    let mut i: usize = 0;
    while i < vs.len()
        invariant
            i <= vs.len(),
            forall|j: int| 0 <= j < i ==> vs@[j]@ != v@,
        decreases vs.len() - i,
    {
        let c = chars_of(vs[i].as_str());
        if chars_eq(c.as_slice(), v) {
            assert(views(vs@)[i as int] == v@);
            return true;
        }
        i = i + 1;
    }
    assert(!views(vs@).contains(v@)) by {
        if views(vs@).contains(v@) {
            let j = choose|j: int| 0 <= j < views(vs@).len() && views(vs@)[j] == v@;
            assert(vs@[j]@ == v@);
        }
    }
    false
}

} // verus!
