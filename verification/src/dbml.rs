//! Rendering documented tables as DBML.
use vstd::prelude::*;
use crate::model::{ColumnInfo, ColumnNote, DocTable, IndexInfo, SnapshotWarning};
use crate::name_map::NameMap;
use crate::text::{
    ascii_lower, ascii_lower_exec, chars_eq, chars_of, decimal, decimal_exec, has_char_exec,
    has_sub, has_sub_exec, is_blank, is_blank_exec, join, join_exec, push_chars, push_str,
    replace_all, replace_all_exec, string_of, string_views, trim, trim_chars, views, occurs_at, trim_start,
    trim_end, decimal_value, is_decimal_digits, lemma_decimal_reads_back,
};

verus! {

/// `[A-Za-z]`.
pub open spec fn is_ascii_alpha(c: char) -> bool {
    ('a' <= c && c <= 'z') || ('A' <= c && c <= 'Z')
}

/// `[0-9]`.
pub open spec fn is_digit(c: char) -> bool {
    '0' <= c && c <= '9'
}

/// A character that may start a bare identifier: `[A-Za-z_]`.
pub open spec fn is_ident_start(c: char) -> bool {
    is_ascii_alpha(c) || c == '_'
}

/// A character that may continue a bare identifier: `[A-Za-z0-9_]`.
pub open spec fn is_ident_char(c: char) -> bool {
    is_ascii_alpha(c) || is_digit(c) || c == '_'
}

/// Matches `[A-Za-z_][A-Za-z0-9_]*`.
pub open spec fn is_plain_identifier(s: Seq<char>) -> bool {
    s.len() > 0 && is_ident_start(s[0]) && forall|i: int| 0 <= i < s.len() ==> #[trigger] is_ident_char(s[i])
}

/// A bare identifier as it is, anything else in double quotes with each
/// embedded `"` escaped as `\"`.
pub open spec fn quote_identifier_spec(s: Seq<char>) -> Seq<char> {
    if is_plain_identifier(s) {
        s
    } else {
        "\""@ + replace_all(s, "\""@, "\\\""@) + "\""@
    }
}

fn is_plain_identifier_exec(v: &Vec<char>) -> (r: bool)
    ensures
        r == is_plain_identifier(v@),
{
    let n = v.len();
    if n == 0 {
        return false;
    }
    let c0 = v[0];
    if !(('a' <= c0 && c0 <= 'z') || ('A' <= c0 && c0 <= 'Z') || c0 == '_') {
        return false;
    }
    for i in 0..n
        invariant
            n == v@.len(),
            forall|j: int| 0 <= j < i ==> #[trigger] is_ident_char(v@[j]),
    {
        let c = v[i];
        if !(('a' <= c && c <= 'z') || ('A' <= c && c <= 'Z') || ('0' <= c && c <= '9') || c == '_') {
            assert(!is_ident_char(v@[i as int]));
            return false;
        }
    }
    true
}

fn quote_identifier_chars(v: &Vec<char>) -> (r: Vec<char>)
    ensures
        r@ == quote_identifier_spec(v@),
{
    if is_plain_identifier_exec(v) {
        let mut r: Vec<char> = Vec::new();
        push_chars(&mut r, v);
        assert(r@ =~= v@);
        r
    } else {
        let quote = chars_of("\"");
        let escaped_quote = chars_of("\\\"");
        proof {
            reveal_strlit("\"");
        }
        let body = replace_all_exec(v, &quote, &escaped_quote);
        let mut r: Vec<char> = Vec::new();
        push_str(&mut r, "\"");
        push_chars(&mut r, &body);
        push_str(&mut r, "\"");
        r
    }
}

/// DBML accepts bare identifiers matching `[A-Za-z_][A-Za-z0-9_]*`;
/// everything else needs double quotes.
pub fn quote_identifier(value: &str) -> (r: String)
    ensures
        r@ == quote_identifier_spec(value@),
{
    let v = chars_of(value);
    let q = quote_identifier_chars(&v);
    string_of(&q)
}

/// The present, non-empty schema.
pub open spec fn nonempty(s: Option<Seq<char>>) -> Option<Seq<char>> {
    match s {
        Some(x) => if x.len() > 0 { Some(x) } else { None },
        None => None,
    }
}

/// `schema.name` when qualifying and a schema is present, bare `name`
/// otherwise; both parts quoted independently.
pub open spec fn qualified_spec(schema: Option<Seq<char>>, name: Seq<char>, qualify: bool) -> Seq<char> {
    match nonempty(schema) {
        Some(s) => if qualify {
            quote_identifier_spec(s) + "."@ + quote_identifier_spec(name)
        } else {
            quote_identifier_spec(name)
        },
        None => quote_identifier_spec(name),
    }
}

/// The view of an optional string slice.
pub open spec fn opt_str_view(s: Option<&str>) -> Option<Seq<char>> {
    match s {
        Some(x) => Some(x@),
        None => None,
    }
}

/// The view of an optional string.
pub open spec fn opt_string_view(s: Option<String>) -> Option<Seq<char>> {
    match s {
        Some(x) => Some(x@),
        None => None,
    }
}

fn qualified_chars(schema: Option<&str>, name: &str, qualify: bool) -> (r: Vec<char>)
    ensures
        r@ == qualified_spec(opt_str_view(schema), name@, qualify),
{
    let name_v = chars_of(name);
    match schema {
        Some(s) => {
            if !s.is_empty() && qualify {
                let sv = chars_of(s);
                let mut r = quote_identifier_chars(&sv);
                push_str(&mut r, ".");
                let qn = quote_identifier_chars(&name_v);
                push_chars(&mut r, &qn);
                return r;
            }
        },
        None => {},
    }
    quote_identifier_chars(&name_v)
}

/// `schema.name` when qualifying, bare `name` otherwise. Both parts quoted
/// independently so an irregular schema or table name is handled correctly.
pub fn qualified(schema: Option<&str>, name: &str, qualify: bool) -> (r: String)
    ensures
        r@ == qualified_spec(opt_str_view(schema), name@, qualify),
{
    let q = qualified_chars(schema, name, qualify);
    string_of(&q)
}

/// The escaped body of a note, read left to right: each apostrophe that
/// starts a run of three is written as `\'`, so that no `'''` survives.
pub open spec fn escape_body(s: Seq<char>) -> Seq<char>
    decreases s.len(),
{
    if s.len() == 0 {
        Seq::empty()
    } else if s.len() >= 3 && s[0] == '\'' && s[1] == '\'' && s[2] == '\'' {
        seq!['\\', '\''] + escape_body(s.drop_first())
    } else {
        seq![s[0]] + escape_body(s.drop_first())
    }
}

/// The body of a note: the escaped body, with a final apostrophe written
/// as `\'` so that it cannot run into the closing delimiter.
pub open spec fn escape_note(value: Seq<char>) -> Seq<char> {
    let escaped = escape_body(value);
    if escaped.len() > 0 && escaped.last() == '\'' {
        escaped.drop_last() + seq!['\\', '\'']
    } else {
        escaped
    }
}

/// A note in triple quotes.
pub open spec fn render_note_spec(value: Seq<char>) -> Seq<char> {
    "'''"@ + escape_note(value) + "'''"@
}

fn escape_body_chars(v: &Vec<char>) -> (r: Vec<char>)
    ensures
        r@ == escape_body(v@),
{
    let n = v.len();
    let mut out: Vec<char> = Vec::new();
    let mut i: usize = 0;
    assert(v@.skip(0) =~= v@);
    while i < n
        invariant
            n == v@.len(),
            i <= n,
            out@ + escape_body(v@.skip(i as int)) == escape_body(v@),
        decreases n - i,
    {
        let ghost t = v@.skip(i as int);
        assert(t.drop_first() =~= v@.skip(i + 1));
        let c = v[i];
        if n - i >= 3 && c == '\'' && v[i + 1] == '\'' && v[i + 2] == '\'' {
            out.push('\\');
            out.push('\'');
        } else {
            out.push(c);
        }
        assert(out@ + escape_body(v@.skip(i + 1)) =~= escape_body(v@));
        i = i + 1;
    }
    assert(v@.skip(n as int) =~= Seq::<char>::empty());
    assert(out@ + Seq::<char>::empty() =~= out@);
    out
}

fn render_note_chars(v: &Vec<char>) -> (r: Vec<char>)
    ensures
        r@ == render_note_spec(v@),
{
    let escaped = escape_body_chars(v);
    let mut r: Vec<char> = Vec::new();
    push_str(&mut r, "'''");
    let n = escaped.len();
    if n > 0 && escaped[n - 1] == '\'' {
        let mut k: usize = 0;
        while k < n - 1
            invariant
                n == escaped@.len(),
                n > 0,
                k <= n - 1,
                r@ == "'''"@ + escaped@.take(k as int),
            decreases n - 1 - k,
        {
            r.push(escaped[k]);
            assert(escaped@.take(k + 1) =~= escaped@.take(k as int).push(escaped@[k as int]));
            k = k + 1;
        }
        assert(escaped@.take((n - 1) as int) =~= escaped@.drop_last());
        r.push('\\');
        r.push('\'');
        assert(r@ =~= "'''"@ + (escaped@.drop_last() + seq!['\\', '\'']));
    } else {
        push_chars(&mut r, &escaped);
    }
    push_str(&mut r, "'''");
    r
}

/// Notes always use triple quotes so an apostrophe in prose can never break
/// the file.
///
/// Inside triple quotes DBML reads `\'` as an apostrophe. So an apostrophe
/// that would start a `'''` is written `\'`, and so is a final apostrophe: the note
/// `he said '` would otherwise render as four quotes in a row, and a parser
/// scanning for the closing `'''` would close early and strand the fourth.
pub fn render_note(value: &str) -> (r: String)
    ensures
        r@ == render_note_spec(value@),
{
    let v = chars_of(value);
    let r = render_note_chars(&v);
    string_of(&r)
}

/// The characters of `v` from `from` to `to`.
fn subvec(v: &Vec<char>, from: usize, to: usize) -> (r: Vec<char>)
    requires
        from <= to <= v@.len(),
    ensures
        r@ == v@.subrange(from as int, to as int),
{
    let mut r: Vec<char> = Vec::new();
    let mut k: usize = from;
    while k < to
        invariant
            from <= k <= to <= v@.len(),
            r@ == v@.subrange(from as int, k as int),
        decreases to - k,
    {
        r.push(v[k]);
        assert(v@.subrange(from as int, k + 1) =~= v@.subrange(from as int, k as int).push(v@[k as int]));
        k = k + 1;
    }
    r
}

/// Number of leading decimal digits.
pub open spec fn lead_digits(s: Seq<char>) -> nat
    decreases s.len(),
{
    if s.len() > 0 && is_digit(s[0]) {
        1 + lead_digits(s.drop_first())
    } else {
        0
    }
}

/// Every character is a decimal digit.
pub open spec fn all_digits(s: Seq<char>) -> bool {
    forall|i: int| 0 <= i < s.len() ==> #[trigger] is_digit(s[i])
}

/// `Exp?` of the float grammar, on lower-cased text: empty, or
/// `'e' Sign? Digit+`.
pub open spec fn exponent_ok(e: Seq<char>) -> bool {
    e.len() == 0 || (e[0] == 'e' && {
        let d = if e.len() > 1 && (e[1] == '+' || e[1] == '-') {
            e.skip(2)
        } else {
            e.drop_first()
        };
        d.len() > 0 && all_digits(d)
    })
}

/// `Number` of the float grammar:
/// `( Digit+ | Digit+ '.' Digit* | Digit* '.' Digit+ ) Exp?`.
pub open spec fn number_ok(b: Seq<char>) -> bool {
    let d1 = lead_digits(b);
    let rest = b.skip(d1 as int);
    if rest.len() > 0 && rest[0] == '.' {
        let frac = rest.drop_first();
        let d2 = lead_digits(frac);
        d1 + d2 > 0 && exponent_ok(frac.skip(d2 as int))
    } else {
        d1 > 0 && exponent_ok(rest)
    }
}

/// Whether `f64::from_str` accepts `s`: the documented grammar
/// `Sign? ( 'inf' | 'infinity' | 'nan' | Number )`, matched without regard
/// to ASCII case.
pub open spec fn is_float_literal(s: Seq<char>) -> bool {
    let l = ascii_lower(s);
    let b = if l.len() > 0 && (l[0] == '+' || l[0] == '-') {
        l.drop_first()
    } else {
        l
    };
    b == "inf"@ || b == "infinity"@ || b == "nan"@ || number_ok(b)
}

proof fn lemma_lead_digits_bound(s: Seq<char>)
    ensures
        lead_digits(s) <= s.len(),
        forall|i: int| 0 <= i < lead_digits(s) ==> #[trigger] is_digit(s[i]),
        lead_digits(s) < s.len() ==> !is_digit(s[lead_digits(s) as int]),
    decreases s.len(),
{
    if s.len() > 0 && is_digit(s[0]) {
        lemma_lead_digits_bound(s.drop_first());
        assert forall|i: int| 0 <= i < lead_digits(s) implies #[trigger] is_digit(s[i]) by {
            if i > 0 {
                assert(s[i] == s.drop_first()[i - 1]);
            }
        }
    }
}

proof fn lemma_lead_digits_of_prefix(s: Seq<char>, k: nat)
    requires
        k <= s.len(),
        forall|i: int| 0 <= i < k ==> #[trigger] is_digit(s[i]),
        k == s.len() || !is_digit(s[k as int]),
    ensures
        lead_digits(s) == k,
    decreases k,
{
    if k > 0 {
        assert forall|i: int| 0 <= i < k - 1 implies #[trigger] is_digit(s.drop_first()[i]) by {
            assert(s.drop_first()[i] == s[i + 1]);
        }
        if k < s.len() {
            assert(s.drop_first()[k - 1] == s[k as int]);
        }
        lemma_lead_digits_of_prefix(s.drop_first(), (k - 1) as nat);
    } else {
    }
}

fn lead_digits_exec(v: &Vec<char>) -> (r: usize)
    ensures
        r == lead_digits(v@),
{
    let n = v.len();
    let mut k: usize = 0;
    while k < n && '0' <= v[k] && v[k] <= '9'
        invariant
            n == v@.len(),
            k <= n,
            forall|i: int| 0 <= i < k ==> #[trigger] is_digit(v@[i]),
        decreases n - k,
    {
        k = k + 1;
    }
    proof {
        lemma_lead_digits_of_prefix(v@, k as nat);
    }
    k
}

fn all_digits_exec(v: &Vec<char>) -> (r: bool)
    ensures
        r == all_digits(v@),
{
    let n = v.len();
    for i in 0..n
        invariant
            n == v@.len(),
            forall|j: int| 0 <= j < i ==> #[trigger] is_digit(v@[j]),
    {
        if !('0' <= v[i] && v[i] <= '9') {
            assert(!is_digit(v@[i as int]));
            return false;
        }
    }
    true
}

fn exponent_ok_exec(e: &Vec<char>) -> (r: bool)
    ensures
        r == exponent_ok(e@),
{
    let n = e.len();
    if n == 0 {
        return true;
    }
    if e[0] != 'e' {
        return false;
    }
    let d = if n > 1 && (e[1] == '+' || e[1] == '-') {
        subvec(e, 2, n)
    } else {
        subvec(e, 1, n)
    };
    proof {
        assert(e@.skip(2) =~= e@.subrange(2, n as int));
        assert(e@.drop_first() =~= e@.subrange(1, n as int));
    }
    d.len() > 0 && all_digits_exec(&d)
}

fn number_ok_exec(b: &Vec<char>) -> (r: bool)
    ensures
        r == number_ok(b@),
{
    let n = b.len();
    let d1 = lead_digits_exec(b);
    proof {
        lemma_lead_digits_bound(b@);
    }
    let rest = subvec(b, d1, n);
    assert(rest@ =~= b@.skip(d1 as int));
    let m = rest.len();
    if m > 0 && rest[0] == '.' {
        let frac = subvec(&rest, 1, m);
        assert(frac@ =~= rest@.drop_first());
        let d2 = lead_digits_exec(&frac);
        proof {
            lemma_lead_digits_bound(frac@);
        }
        let tail = subvec(&frac, d2, frac.len());
        assert(tail@ =~= frac@.skip(d2 as int));
        (d1 > 0 || d2 > 0) && exponent_ok_exec(&tail)
    } else {
        d1 > 0 && exponent_ok_exec(&rest)
    }
}

fn is_float_literal_exec(s: &Vec<char>) -> (r: bool)
    ensures
        r == is_float_literal(s@),
{
    let l = ascii_lower_exec(s);
    let n = l.len();
    let b = if n > 0 && (l[0] == '+' || l[0] == '-') {
        subvec(&l, 1, n)
    } else {
        subvec(&l, 0, n)
    };
    proof {
        assert(l@.drop_first() =~= l@.subrange(1, n as int));
        assert(l@ =~= l@.subrange(0, n as int));
    }
    let inf = chars_of("inf");
    let infinity = chars_of("infinity");
    let nan = chars_of("nan");
    chars_eq(&b, &inf) || chars_eq(&b, &infinity) || chars_eq(&b, &nan) || number_ok_exec(&b)
}

/// Whether a default value is an expression rather than a literal:
/// quoted strings, numbers, `true`, `false` and `null` are literals.
pub open spec fn looks_like_expression_spec(value: Seq<char>) -> bool {
    let t = trim(value);
    if t.len() >= 2 && t[0] == '\'' && t.last() == '\'' {
        false
    } else if is_float_literal(t) {
        false
    } else if ascii_lower(t) == "true"@ || ascii_lower(t) == "false"@ || ascii_lower(t) == "null"@ {
        false
    } else {
        true
    }
}

fn looks_like_expression_chars(v: &Vec<char>) -> (r: bool)
    ensures
        r == looks_like_expression_spec(v@),
{
    let t = trim_chars(v);
    let n = t.len();
    if n >= 2 && t[0] == '\'' && t[n - 1] == '\'' {
        return false;
    }
    if is_float_literal_exec(&t) {
        return false;
    }
    let lower = ascii_lower_exec(&t);
    let w_true = chars_of("true");
    let w_false = chars_of("false");
    let w_null = chars_of("null");
    if chars_eq(&lower, &w_true) || chars_eq(&lower, &w_false) || chars_eq(&lower, &w_null) {
        return false;
    }
    true
}

/// Whether a default value is an expression rather than a literal.
pub fn looks_like_expression(value: &str) -> (r: bool)
    ensures
        r == looks_like_expression_spec(value@),
{
    let v = chars_of(value);
    looks_like_expression_chars(&v)
}

/// `default: …` for a column, or `None` when it has no default.
/// Expressions go in backticks, literals stay as written.
pub open spec fn render_default_spec(column: ColumnInfo) -> Option<Seq<char>> {
    match column.column_default {
        Some(d) => {
            let value = trim(d@);
            if value.len() == 0 {
                None
            } else if looks_like_expression_spec(value) {
                Some("default: `"@ + value + "`"@)
            } else {
                Some("default: "@ + value)
            }
        },
        None => None,
    }
}

fn render_default_chars(column: &ColumnInfo) -> (r: Option<Vec<char>>)
    ensures
        match r {
            Some(v) => render_default_spec(*column) == Some(v@),
            None => render_default_spec(*column) is None,
        },
{
    match &column.column_default {
        Some(d) => {
            let dv = chars_of(d.as_str());
            let value = trim_chars(&dv);
            if value.len() == 0 {
                return None;
            }
            let mut out: Vec<char> = Vec::new();
            if looks_like_expression_chars(&value) {
                push_str(&mut out, "default: `");
                push_chars(&mut out, &value);
                push_str(&mut out, "`");
            } else {
                push_str(&mut out, "default: ");
                push_chars(&mut out, &value);
            }
            Some(out)
        },
        None => None,
    }
}

/// `default: …` for a column, or `None` when it has no default.
/// Expressions go in backticks, literals stay as written.
pub fn render_default(column: &ColumnInfo) -> (r: Option<String>)
    ensures
        opt_string_view(r) == render_default_spec(*column),
{
    match render_default_chars(column) {
        Some(v) => Some(string_of(&v)),
        None => None,
    }
}

/// The column's type: verbatim when it already carries parameters,
/// otherwise with precision reconstructed from the engine's metadata.
pub open spec fn render_type_spec(column: ColumnInfo) -> Seq<char> {
    let base = trim(column.data_type@);
    let length = column.character_maximum_length;
    let precision = column.numeric_precision;
    let scale = column.numeric_scale;
    if base.contains('(') {
        base
    } else if length is Some && length->0 > 0 {
        base + "("@ + decimal(length->0 as nat) + ")"@
    } else if precision is Some && precision->0 > 0 {
        if scale is Some && scale->0 > 0 {
            base + "("@ + decimal(precision->0 as nat) + ","@ + decimal(scale->0 as nat) + ")"@
        } else {
            base + "("@ + decimal(precision->0 as nat) + ")"@
        }
    } else {
        base
    }
}

fn render_type_chars(column: &ColumnInfo) -> (r: Vec<char>)
    ensures
        r@ == render_type_spec(*column),
{
    let dv = chars_of(column.data_type.as_str());
    let base = trim_chars(&dv);
    if has_char_exec(&base, '(') {
        return base;
    }
    let mut out: Vec<char> = Vec::new();
    push_chars(&mut out, &base);
    match column.character_maximum_length {
        Some(l) => {
            if l > 0 {
                push_str(&mut out, "(");
                let d = decimal_exec(l as u64);
                push_chars(&mut out, &d);
                push_str(&mut out, ")");
                return out;
            }
        },
        None => {},
    }
    match column.numeric_precision {
        Some(p) => {
            if p > 0 {
                push_str(&mut out, "(");
                let dp = decimal_exec(p as u64);
                push_chars(&mut out, &dp);
                match column.numeric_scale {
                    Some(s) => {
                        if s > 0 {
                            push_str(&mut out, ",");
                            let ds = decimal_exec(s as u64);
                            push_chars(&mut out, &ds);
                        }
                    },
                    None => {},
                }
                push_str(&mut out, ")");
                return out;
            }
        },
        None => {},
    }
    assert(out@ =~= base@);
    out
}

/// DBML does not validate type names, so native types pass through intact.
/// Precision is reconstructed only when the engine reported a bare type.
pub fn render_type(column: &ColumnInfo) -> (r: String)
    ensures
        r@ == render_type_spec(*column),
{
    let v = render_type_chars(column);
    string_of(&v)
}

/// The note text, if present and not blank.
pub open spec fn nonblank(s: Option<String>) -> Option<Seq<char>> {
    match s {
        Some(x) => if is_blank(x@) { None } else { Some(x@) },
        None => None,
    }
}

/// The settings of a column, in DBML order: `pk`, `increment`,
/// `not null`, the default and the note. A locally recorded note wins over
/// the database comment.
pub open spec fn column_settings_spec(column: ColumnInfo, notes: NameMap<ColumnNote>) -> Seq<Seq<char>> {
    let extra = ascii_lower(
        match column.extra {
            Some(e) => e@,
            None => Seq::empty(),
        },
    );
    let s0: Seq<Seq<char>> = if column.is_primary_key {
        seq!["pk"@]
    } else {
        Seq::empty()
    };
    let s1 = if has_sub(extra, "auto_increment"@) || has_sub(extra, "identity"@) {
        s0.push("increment"@)
    } else {
        s0
    };
    let s2 = if !column.is_nullable && !column.is_primary_key {
        s1.push("not null"@)
    } else {
        s1
    };
    let s3 = match render_default_spec(column) {
        Some(d) => s2.push(d),
        None => s2,
    };
    match notes.spec_get(column.name@) {
        Some(n) => s3.push("note: "@ + render_note_spec(n.note@)),
        None => match nonblank(column.comment) {
            Some(c) => s3.push("note: "@ + render_note_spec(c)),
            None => s3,
        },
    }
}

fn column_settings_chars(column: &ColumnInfo, notes: &NameMap<ColumnNote>) -> (r: Vec<Vec<char>>)
    ensures
        views(r@) == column_settings_spec(*column, *notes),
{
    let mut settings: Vec<Vec<char>> = Vec::new();
    let ghost spec = column_settings_spec(*column, *notes);
    if column.is_primary_key {
        settings.push(chars_of("pk"));
    }
    let extra_raw = match &column.extra {
        Some(e) => chars_of(e.as_str()),
        None => Vec::new(),
    };
    let extra = ascii_lower_exec(&extra_raw);
    let w_auto = chars_of("auto_increment");
    let w_identity = chars_of("identity");
    if has_sub_exec(&extra, &w_auto) || has_sub_exec(&extra, &w_identity) {
        settings.push(chars_of("increment"));
    }
    if !column.is_nullable && !column.is_primary_key {
        settings.push(chars_of("not null"));
    }
    match render_default_chars(column) {
        Some(d) => settings.push(d),
        None => {},
    }
    match notes.get(column.name.as_str()) {
        Some(n) => {
            let nv = chars_of(n.note.as_str());
            let rendered = render_note_chars(&nv);
            let mut item = chars_of("note: ");
            push_chars(&mut item, &rendered);
            settings.push(item);
        },
        None => {
            match &column.comment {
                Some(c) => {
                    let cv = chars_of(c.as_str());
                    if !is_blank_exec(&cv) {
                        let rendered = render_note_chars(&cv);
                        let mut item = chars_of("note: ");
                        push_chars(&mut item, &rendered);
                        settings.push(item);
                    }
                },
                None => {},
            }
        },
    }
    assert(views(settings@) =~= spec);
    settings
}

/// The settings of a column, in DBML order.
pub fn column_settings(column: &ColumnInfo, table: &DocTable) -> (r: Vec<String>)
    ensures
        string_views(r@) == column_settings_spec(*column, table.column_notes),
{
    let settings = column_settings_chars(column, &table.column_notes);
    strings_of(&settings)
}

/// Strings holding exactly the given character vectors.
fn strings_of(v: &Vec<Vec<char>>) -> (r: Vec<String>)
    ensures
        string_views(r@) == views(v@),
{
    let mut r: Vec<String> = Vec::new();
    let n = v.len();
    for i in 0..n
        invariant
            n == v@.len(),
            string_views(r@) == views(v@.take(i as int)),
    {
        r.push(string_of(&v[i]));
        assert(views(v@.take(i + 1)) =~= views(v@.take(i as int)).push(v@[i as int]@));
        assert(string_views(r@) =~= views(v@.take(i as int)).push(v@[i as int]@));
    }
    assert(v@.take(n as int) =~= v@);
    r
}

/// Index columns, each quoted as an identifier.
pub open spec fn quoted_columns(columns: Seq<String>) -> Seq<Seq<char>> {
    string_views(columns).map_values(|c: Seq<char>| quote_identifier_spec(c))
}

/// The settings of an index: its name, then `unique` when it is unique.
pub open spec fn index_settings_spec(index: IndexInfo) -> Seq<Seq<char>> {
    let name = "name: '"@ + replace_all(index.name@, "'"@, "\\'"@) + "'"@;
    if index.is_unique {
        seq![name, "unique"@]
    } else {
        seq![name]
    }
}

/// One line of an `Indexes` block.
pub open spec fn render_index_spec(index: IndexInfo) -> Seq<char> {
    "    ("@ + join(quoted_columns(index.columns@), ", "@) + ") ["@ + join(
        index_settings_spec(index),
        ", "@,
    ) + "]\n"@
}

fn render_index_chars(index: &IndexInfo) -> (r: Vec<char>)
    ensures
        r@ == render_index_spec(*index),
{
    let mut cols: Vec<Vec<char>> = Vec::new();
    let n = index.columns.len();
    for i in 0..n
        invariant
            n == index.columns@.len(),
            views(cols@) == quoted_columns(index.columns@.take(i as int)),
    {
        let cv = chars_of(index.columns[i].as_str());
        cols.push(quote_identifier_chars(&cv));
        assert(quoted_columns(index.columns@.take(i + 1)) =~= quoted_columns(
            index.columns@.take(i as int),
        ).push(quote_identifier_spec(index.columns@[i as int]@)));
        assert(views(cols@) =~= quoted_columns(index.columns@.take(i as int)).push(
            quote_identifier_spec(index.columns@[i as int]@),
        ));
    }
    assert(index.columns@.take(n as int) =~= index.columns@);
    let joined_cols = join_exec(&cols, ", ");
    let mut settings: Vec<Vec<char>> = Vec::new();
    let nv = chars_of(index.name.as_str());
    let apostrophe = chars_of("'");
    let escaped_apostrophe = chars_of("\\'");
    proof {
        reveal_strlit("'");
    }
    let escaped = replace_all_exec(&nv, &apostrophe, &escaped_apostrophe);
    let mut name_setting = chars_of("name: '");
    push_chars(&mut name_setting, &escaped);
    push_str(&mut name_setting, "'");
    settings.push(name_setting);
    if index.is_unique {
        settings.push(chars_of("unique"));
    }
    assert(views(settings@) =~= index_settings_spec(*index));
    let joined_settings = join_exec(&settings, ", ");
    let mut out = chars_of("    (");
    push_chars(&mut out, &joined_cols);
    push_str(&mut out, ") [");
    push_chars(&mut out, &joined_settings);
    push_str(&mut out, "]\n");
    out
}

/// One line of an `Indexes` block: the quoted columns and the settings.
pub fn render_index(index: &IndexInfo) -> (r: String)
    ensures
        r@ == render_index_spec(*index),
{
    let v = render_index_chars(index);
    string_of(&v)
}

/// One line of the table body for a column.
pub open spec fn column_line_spec(column: ColumnInfo, notes: NameMap<ColumnNote>) -> Seq<char> {
    let settings = column_settings_spec(column, notes);
    let rendered_settings = if settings.len() == 0 {
        Seq::empty()
    } else {
        " ["@ + join(settings, ", "@) + "]"@
    };
    "  "@ + quote_identifier_spec(column.name@) + " "@ + render_type_spec(column) + rendered_settings
        + "\n"@
}

/// The column lines of a table, in column order.
pub open spec fn columns_block(columns: Seq<ColumnInfo>, notes: NameMap<ColumnNote>) -> Seq<char>
    decreases columns.len(),
{
    if columns.len() == 0 {
        Seq::empty()
    } else {
        columns_block(columns.drop_last(), notes) + column_line_spec(columns.last(), notes)
    }
}

/// The index has a partial-index filter.
pub open spec fn has_filter(index: IndexInfo) -> bool {
    nonblank(index.filter) is Some
}

/// The index has included (covering) columns.
pub open spec fn has_included(index: IndexInfo) -> bool {
    match index.included_columns {
        Some(c) => c@.len() > 0,
        None => false,
    }
}

/// Whether the index appears in the `Indexes` block: the primary-key index
/// is skipped because columns already carry `pk`, and indexes DBML cannot
/// express are skipped too.
pub open spec fn is_emittable(index: IndexInfo) -> bool {
    !index.is_primary && !has_filter(index) && !has_included(index) && index.columns@.len() > 0
}

/// The `Indexes` lines for the emittable indexes, in index order.
pub open spec fn index_lines(indexes: Seq<IndexInfo>) -> Seq<char>
    decreases indexes.len(),
{
    if indexes.len() == 0 {
        Seq::empty()
    } else {
        index_lines(indexes.drop_last()) + if is_emittable(indexes.last()) {
            render_index_spec(indexes.last())
        } else {
            Seq::empty()
        }
    }
}

/// Whether any index is emittable.
pub open spec fn any_emittable(indexes: Seq<IndexInfo>) -> bool {
    exists|i: int| 0 <= i < indexes.len() && #[trigger] is_emittable(indexes[i])
}

/// The `Indexes` block, or nothing when no index is emittable.
pub open spec fn indexes_block(indexes: Seq<IndexInfo>) -> Seq<char> {
    if any_emittable(indexes) {
        "\n  Indexes {\n"@ + index_lines(indexes) + "  }\n"@
    } else {
        Seq::empty()
    }
}

/// Why a partial index is left out.
pub open spec fn filter_reason() -> Seq<char> {
    "partial index filter has no DBML equivalent"@
}

/// Why an index with included columns is left out.
pub open spec fn included_reason() -> Seq<char> {
    "included columns have no DBML equivalent"@
}

/// Why an index without columns is left out.
pub open spec fn no_columns_reason() -> Seq<char> {
    "an index without columns has no DBML equivalent"@
}

/// The index left out of the DBML with the reason, as (item, reason).
pub open spec fn omission_of(index: IndexInfo) -> Seq<(Seq<char>, Seq<char>)> {
    if index.is_primary {
        Seq::empty()
    } else if has_filter(index) {
        seq![(index.name@, filter_reason())]
    } else if has_included(index) {
        seq![(index.name@, included_reason())]
    } else if index.columns@.len() == 0 {
        seq![(index.name@, no_columns_reason())]
    } else {
        Seq::empty()
    }
}

/// Every index that DBML cannot express, in index order, with the reason.
pub open spec fn omissions(indexes: Seq<IndexInfo>) -> Seq<(Seq<char>, Seq<char>)>
    decreases indexes.len(),
{
    if indexes.len() == 0 {
        Seq::empty()
    } else {
        omissions(indexes.drop_last()) + omission_of(indexes.last())
    }
}

/// `w` records that `item` of `table` was left out of the DBML for `reason`.
pub open spec fn is_omission(w: SnapshotWarning, table: Seq<char>, item: Seq<char>, reason: Seq<char>) -> bool {
    match w {
        SnapshotWarning::DbmlOmitted { table: t, item: i, reason: r } => t@ == table && i@ == item
            && r@ == reason,
        _ => false,
    }
}

/// The table note block, or nothing when the note is absent or blank.
pub open spec fn note_block(note: Option<String>) -> Seq<char> {
    match nonblank(note) {
        Some(n) => "\n  Note: "@ + render_note_spec(n) + "\n"@,
        None => Seq::empty(),
    }
}

/// One `Table` block.
pub open spec fn render_table_spec(table: DocTable, qualify: bool) -> Seq<char> {
    "Table "@ + qualified_spec(opt_string_view(table.schema), table.name@, qualify) + " {\n"@
        + columns_block(table.columns@, table.column_notes) + indexes_block(table.indexes@)
        + note_block(table.note) + "}\n"@
}

fn column_line_chars(column: &ColumnInfo, notes: &NameMap<ColumnNote>) -> (r: Vec<char>)
    ensures
        r@ == column_line_spec(*column, *notes),
{
    let settings = column_settings_chars(column, notes);
    let mut out = chars_of("  ");
    let cn = chars_of(column.name.as_str());
    let qn = quote_identifier_chars(&cn);
    push_chars(&mut out, &qn);
    push_str(&mut out, " ");
    let ty = render_type_chars(column);
    push_chars(&mut out, &ty);
    if settings.len() > 0 {
        push_str(&mut out, " [");
        let joined = join_exec(&settings, ", ");
        push_chars(&mut out, &joined);
        push_str(&mut out, "]");
    } else {
        assert(views(settings@).len() == 0);
    }
    push_str(&mut out, "\n");
    out
}

fn nonblank_exec(s: &Option<String>) -> (r: Option<Vec<char>>)
    ensures
        match r {
            Some(v) => nonblank(*s) == Some(v@),
            None => nonblank(*s) is None,
        },
{
    match s {
        Some(x) => {
            let v = chars_of(x.as_str());
            if is_blank_exec(&v) {
                None
            } else {
                Some(v)
            }
        },
        None => None,
    }
}

fn is_emittable_exec(index: &IndexInfo) -> (r: bool)
    ensures
        r == is_emittable(*index),
{
    let filtered = nonblank_exec(&index.filter).is_some();
    let included = match &index.included_columns {
        Some(c) => c.len() > 0,
        None => false,
    };
    !index.is_primary && !filtered && !included && index.columns.len() > 0
}

fn columns_block_chars(columns: &Vec<ColumnInfo>, notes: &NameMap<ColumnNote>) -> (r: Vec<char>)
    ensures
        r@ == columns_block(columns@, *notes),
{
    let mut out: Vec<char> = Vec::new();
    let n = columns.len();
    for i in 0..n
        invariant
            n == columns@.len(),
            out@ == columns_block(columns@.take(i as int), *notes),
    {
        let line = column_line_chars(&columns[i], notes);
        push_chars(&mut out, &line);
        assert(columns@.take(i + 1).drop_last() =~= columns@.take(i as int));
    }
    assert(columns@.take(n as int) =~= columns@);
    out
}

/// The `Indexes` lines of the table, whether any index is emittable, and
/// a warning pushed for each index left out.
fn index_pass(table: &DocTable, warnings: &mut Vec<SnapshotWarning>) -> (r: (Vec<char>, bool))
    ensures
        r.0@ == index_lines(table.indexes@),
        r.1 == any_emittable(table.indexes@),
        final(warnings)@.len() == old(warnings)@.len() + omissions(table.indexes@).len(),
        forall|k: int| 0 <= k < old(warnings)@.len() ==> #[trigger] final(warnings)@[k] == old(warnings)@[k],
        forall|k: int|
            0 <= k < omissions(table.indexes@).len() ==> is_omission(
                #[trigger] final(warnings)@[old(warnings)@.len() + k],
                table.spec_qualified_name(),
                omissions(table.indexes@)[k].0,
                omissions(table.indexes@)[k].1,
            ),
{
    let qualified_table = table.qualified_name();
    let ghost start = warnings@;
    let m = table.indexes.len();
    let mut lines: Vec<char> = Vec::new();
    let mut any = false;
    for j in 0..m
        invariant
            m == table.indexes@.len(),
            qualified_table@ == table.spec_qualified_name(),
            lines@ == index_lines(table.indexes@.take(j as int)),
            any == any_emittable(table.indexes@.take(j as int)),
            warnings@.len() == start.len() + omissions(table.indexes@.take(j as int)).len(),
            forall|k: int| 0 <= k < start.len() ==> #[trigger] warnings@[k] == start[k],
            forall|k: int|
                0 <= k < omissions(table.indexes@.take(j as int)).len() ==> is_omission(
                    #[trigger] warnings@[start.len() + k],
                    table.spec_qualified_name(),
                    omissions(table.indexes@.take(j as int))[k].0,
                    omissions(table.indexes@.take(j as int))[k].1,
                ),
    {
        let index = &table.indexes[j];
        let ghost prefix = table.indexes@.take(j as int);
        let ghost next = table.indexes@.take(j + 1);
        assert(next.drop_last() =~= prefix);
        assert(next.last() == *index);
        let ghost before = warnings@;
        record_omission(index, &qualified_table, warnings);
        if is_emittable_exec(index) {
            let line = render_index_chars(index);
            push_chars(&mut lines, &line);
            any = true;
        }
        proof {
            assert(lines@ =~= index_lines(next));
            if any_emittable(next) {
                let w = choose|w: int| 0 <= w < next.len() && #[trigger] is_emittable(next[w]);
                if w < j {
                    assert(prefix[w] == next[w]);
                }
            }
            if any_emittable(prefix) {
                let w = choose|w: int| 0 <= w < prefix.len() && #[trigger] is_emittable(prefix[w]);
                assert(prefix[w] == next[w]);
            }
            if is_emittable(*index) {
                assert(is_emittable(next[j as int]));
            }
            assert(omissions(next) == omissions(prefix) + omission_of(*index));
            assert forall|k: int|
                0 <= k < omissions(next).len() implies is_omission(
                    #[trigger] warnings@[start.len() + k],
                    table.spec_qualified_name(),
                    omissions(next)[k].0,
                    omissions(next)[k].1,
                ) by {
                if k < omissions(prefix).len() {
                    assert(warnings@[start.len() + k] == before[start.len() + k]);
                } else {
                    let k2 = k - omissions(prefix).len();
                    assert(omissions(next)[k] == omission_of(*index)[k2]);
                    assert(is_omission(
                        warnings@[before.len() + k2],
                        qualified_table@,
                        omission_of(*index)[k2].0,
                        omission_of(*index)[k2].1,
                    ));
                    assert(before.len() + k2 == start.len() + k);
                }
            }
        }
    }
    assert(table.indexes@.take(m as int) =~= table.indexes@);
    (lines, any)
}

/// Pushes the warning for an index that DBML cannot express, if it is one.
fn record_omission(index: &IndexInfo, table: &String, warnings: &mut Vec<SnapshotWarning>)
    ensures
        final(warnings)@.len() == old(warnings)@.len() + omission_of(*index).len(),
        forall|k: int| 0 <= k < old(warnings)@.len() ==> #[trigger] final(warnings)@[k] == old(warnings)@[k],
        forall|k: int|
            0 <= k < omission_of(*index).len() ==> is_omission(
                #[trigger] final(warnings)@[old(warnings)@.len() + k],
                table@,
                omission_of(*index)[k].0,
                omission_of(*index)[k].1,
            ),
{
    if index.is_primary {
        return;
    }
    if nonblank_exec(&index.filter).is_some() {
        warnings.push(
            SnapshotWarning::DbmlOmitted {
                table: table.clone(),
                item: index.name.clone(),
                reason: string_of(&chars_of("partial index filter has no DBML equivalent")),
            },
        );
        return;
    }
    let included = match &index.included_columns {
        Some(c) => c.len() > 0,
        None => false,
    };
    if included {
        warnings.push(
            SnapshotWarning::DbmlOmitted {
                table: table.clone(),
                item: index.name.clone(),
                reason: string_of(&chars_of("included columns have no DBML equivalent")),
            },
        );
        return;
    }
    if index.columns.len() == 0 {
        warnings.push(
            SnapshotWarning::DbmlOmitted {
                table: table.clone(),
                item: index.name.clone(),
                reason: string_of(&chars_of("an index without columns has no DBML equivalent")),
            },
        );
    }
}

/// Render one `Table` block.
///
/// The primary-key index is skipped because columns already carry `pk`.
/// Indexes DBML cannot express are skipped and recorded in `warnings`
/// rather than dropped silently.
pub fn render_table(table: &DocTable, qualify: bool, warnings: &mut Vec<SnapshotWarning>) -> (r:
    String)
    ensures
        r@ == render_table_spec(*table, qualify),
        final(warnings)@.len() == old(warnings)@.len() + omissions(table.indexes@).len(),
        forall|k: int| 0 <= k < old(warnings)@.len() ==> #[trigger] final(warnings)@[k] == old(warnings)@[k],
        forall|k: int|
            0 <= k < omissions(table.indexes@).len() ==> is_omission(
                #[trigger] final(warnings)@[old(warnings)@.len() + k],
                table.spec_qualified_name(),
                omissions(table.indexes@)[k].0,
                omissions(table.indexes@)[k].1,
            ),
{
    let schema: Option<&str> = match &table.schema {
        Some(s) => Some(s.as_str()),
        None => None,
    };
    let name = qualified_chars(schema, table.name.as_str(), qualify);
    assert(opt_str_view(schema) == opt_string_view(table.schema));
    let mut out = chars_of("Table ");
    push_chars(&mut out, &name);
    push_str(&mut out, " {\n");
    let columns = columns_block_chars(&table.columns, &table.column_notes);
    push_chars(&mut out, &columns);
    let (lines, any) = index_pass(table, warnings);
    let ghost after_columns = out@;
    if any {
        push_str(&mut out, "\n  Indexes {\n");
        push_chars(&mut out, &lines);
        push_str(&mut out, "  }\n");
    }
    assert(out@ == after_columns + indexes_block(table.indexes@));
    let ghost after_indexes = out@;
    match nonblank_exec(&table.note) {
        Some(note) => {
            push_str(&mut out, "\n  Note: ");
            let rendered = render_note_chars(&note);
            push_chars(&mut out, &rendered);
            push_str(&mut out, "\n");
        },
        None => {},
    }
    assert(out@ == after_indexes + note_block(table.note));
    push_str(&mut out, "}\n");
    string_of(&out)
}
/// `c` and `k` more characters consumed in front of a reading result.
pub open spec fn prepend(c: char, k: int, r: Option<(Seq<char>, int)>) -> Option<(Seq<char>, int)> {
    match r {
        Some((text, n)) => Some((seq![c] + text, n + k)),
        None => None,
    }
}

/// How a DBML reader takes a note from the text after its opening `'''`:
/// it reads `\'` as `'` and `\\` as `\`, and stops at the first other
/// `'''`. The result is the note and the number of characters consumed,
/// the closing delimiter included; `None` when the text ends first.
pub open spec fn read_note_body(s: Seq<char>) -> Option<(Seq<char>, int)>
    decreases s.len(),
{
    if s.len() >= 2 && s[0] == '\\' && (s[1] == '\'' || s[1] == '\\') {
        prepend(s[1], 2, read_note_body(s.skip(2)))
    } else if s.len() >= 3 && s[0] == '\'' && s[1] == '\'' && s[2] == '\'' {
        Some((Seq::empty(), 3))
    } else if s.len() == 0 {
        None
    } else {
        prepend(s[0], 1, read_note_body(s.drop_first()))
    }
}

/// What the escaping writes for the first character of a note.
pub open spec fn escape_head(v: Seq<char>) -> Seq<char> {
    if v.len() >= 3 && v[0] == '\'' && v[1] == '\'' && v[2] == '\'' {
        seq!['\\', '\'']
    } else {
        seq![v[0]]
    }
}

proof fn lemma_body_cons(v: Seq<char>)
    requires
        v.len() > 0,
    ensures
        escape_body(v) == escape_head(v) + escape_body(v.drop_first()),
        escape_body(v).len() > 0,
{
}

proof fn lemma_note_cons(v: Seq<char>)
    requires
        v.len() >= 2,
    ensures
        escape_note(v) == escape_head(v) + escape_note(v.drop_first()),
{
    let w = v.drop_first();
    lemma_body_cons(v);
    lemma_body_cons(w);
    let h = escape_head(v);
    let bw = escape_body(w);
    assert((h + bw).last() == bw.last());
    if bw.last() == '\'' {
        assert((h + bw).drop_last() =~= h + bw.drop_last());
        assert(escape_note(v) =~= h + escape_note(w));
    }
}

proof fn lemma_note_first(u: Seq<char>)
    requires
        u.len() > 0,
        u[0] != '\'',
    ensures
        escape_note(u).len() > 0,
        escape_note(u)[0] != '\'',
{
    lemma_body_cons(u);
    let b = escape_body(u);
    assert(b[0] != '\'');
    if b.len() >= 2 && b.last() == '\'' {
        assert((b.drop_last() + seq!['\\', '\''])[0] == b[0]);
    }
}

proof fn lemma_read_plain(c: char, rest: Seq<char>)
    requires
        c != '\\',
        !(c == '\'' && rest.len() >= 2 && rest[0] == '\'' && rest[1] == '\''),
    ensures
        read_note_body(seq![c] + rest) == prepend(c, 1, read_note_body(rest)),
{
    let s = seq![c] + rest;
    assert(s.drop_first() =~= rest);
}

proof fn lemma_read_escape(c: char, rest: Seq<char>)
    requires
        c == '\'' || c == '\\',
    ensures
        read_note_body(seq!['\\', c] + rest) == prepend(c, 2, read_note_body(rest)),
{
    let s = seq!['\\', c] + rest;
    assert(s.skip(2) =~= rest);
}

/// A rendered note without backslashes reads back as exactly the note it
/// was rendered from, and the reader stops exactly at the closing
/// delimiter: however many apostrophes such a note holds, and wherever,
/// it cannot break the file.
pub proof fn lemma_note_reads_back(v: Seq<char>)
    requires
        forall|i: int| 0 <= i < v.len() ==> v[i] != '\\',
    ensures
        read_note_body(escape_note(v) + "'''"@) == Some((v, escape_note(v).len() + 3int)),
        read_note_body(render_note_spec(v).skip(3)) == Some((v, render_note_spec(v).len() - 3)),
    decreases v.len(),
{
    reveal_strlit("'''");
    let t = "'''"@;
    let e = escape_note(v);
    assert(render_note_spec(v).skip(3) =~= e + t);
    assert(t.skip(3) =~= Seq::<char>::empty());
    if v.len() == 0 {
        assert(e =~= Seq::<char>::empty());
        assert(e + t =~= t);
    } else if v.len() == 1 {
        let c = v[0];
        lemma_body_cons(v);
        assert(escape_body(v.drop_first()) =~= Seq::<char>::empty());
        if c == '\'' {
            assert(e =~= seq!['\\', '\'']);
            lemma_read_escape('\'', t);
        } else {
            assert(e =~= seq![c]);
            lemma_read_plain(c, t);
        }
        assert(seq![c] + Seq::<char>::empty() =~= v);
    } else {
        let w = v.drop_first();
        assert forall|i: int| 0 <= i < w.len() implies w[i] != '\\' by {
            assert(w[i] == v[i + 1]);
        }
        lemma_note_cons(v);
        lemma_note_reads_back(w);
        let ew = escape_note(w);
        let rest = ew + t;
        assert(e + t =~= escape_head(v) + rest);
        let c = v[0];
        if v.len() >= 3 && c == '\'' && v[1] == '\'' && v[2] == '\'' {
            assert(escape_head(v) + rest =~= seq!['\\', '\''] + rest);
            lemma_read_escape('\'', rest);
        } else {
            assert(escape_head(v) + rest =~= seq![c] + rest);
            if c == '\'' {
                if w[0] != '\'' {
                    lemma_note_first(w);
                } else if w.len() == 1 {
                    lemma_body_cons(w);
                    assert(escape_body(w.drop_first()) =~= Seq::<char>::empty());
                    assert(ew =~= seq!['\\', '\'']);
                } else {
                    let u = w.drop_first();
                    assert(u[0] == v[2]);
                    lemma_note_cons(w);
                    lemma_note_first(u);
                    assert(ew[1] == escape_note(u)[0]);
                }
            }
            lemma_read_plain(c, rest);
        }
        assert(seq![c] + w =~= v);
    }
}

/// How a DBML reader takes a quoted identifier from the text after its
/// opening `"`: it reads `\"` as `"` and stops at the first other `"`. The
/// result is the name and the number of characters consumed, the closing
/// quote included; `None` when the text ends first.
pub open spec fn read_quoted(s: Seq<char>) -> Option<(Seq<char>, int)>
    decreases s.len(),
{
    if s.len() >= 2 && s[0] == '\\' && s[1] == '"' {
        prepend('"', 2, read_quoted(s.skip(2)))
    } else if s.len() >= 1 && s[0] == '"' {
        Some((Seq::empty(), 1))
    } else if s.len() == 0 {
        None
    } else {
        prepend(s[0], 1, read_quoted(s.drop_first()))
    }
}

proof fn lemma_escape_quotes_cons(x: char, w: Seq<char>)
    ensures
        replace_all(seq![x] + w, "\""@, "\\\""@) == (if x == '"' { seq!['\\', '"'] } else { seq![x] })
            + replace_all(w, "\""@, "\\\""@),
{
    reveal_strlit("\"");
    reveal_strlit("\\\"");
    let v = seq![x] + w;
    assert(v.drop_first() =~= w);
    assert(v.skip(1) =~= w);
    assert(v.subrange(0, 1) =~= seq![x]);
    assert("\\\""@ =~= seq!['\\', '"']);
    if x == '"' {
        assert(v.subrange(0, 1) =~= "\""@);
    } else {
        assert(v.subrange(0, 1)[0] != "\""@[0]);
        assert(v.subrange(0, 1) != "\""@);
    }
}

proof fn lemma_quoted_reads_back_body(v: Seq<char>)
    requires
        !v.contains('\\'),
    ensures
        read_quoted(replace_all(v, "\""@, "\\\""@) + "\""@) == Some(
            (v, replace_all(v, "\""@, "\\\""@).len() + 1int),
        ),
    decreases v.len(),
{
    reveal_strlit("\"");
    reveal_strlit("\\\"");
    let q = "\""@;
    if v.len() == 0 {
        assert(replace_all(v, "\""@, "\\\""@) =~= v);
        assert(v + q =~= q);
    } else {
        let x = v[0];
        let w = v.drop_first();
        assert(v =~= seq![x] + w);
        assert(x != '\\') by {
            assert(v.contains(x));
        }
        assert(!w.contains('\\')) by {
            if w.contains('\\') {
                let j = choose|j: int| 0 <= j < w.len() && w[j] == '\\';
                assert(v[j + 1] == '\\');
            }
        }
        lemma_escape_quotes_cons(x, w);
        lemma_quoted_reads_back_body(w);
        let ew = replace_all(w, "\""@, "\\\""@);
        let s = replace_all(v, "\""@, "\\\""@) + q;
        if x == '"' {
            assert(s =~= seq!['\\', '"'] + (ew + q));
            assert(s.skip(2) =~= ew + q);
        } else {
            assert(s =~= seq![x] + (ew + q));
            assert(s.drop_first() =~= ew + q);
        }
        assert(seq![x] + w =~= v);
    }
}

/// An identifier that needs quoting reads back, from after its opening
/// quote, as exactly the identifier, with the reader stopping at the
/// closing quote; a plain identifier is written as it is.
pub proof fn lemma_identifier_reads_back(v: Seq<char>)
    requires
        !v.contains('\\'),
    ensures
        is_plain_identifier(v) ==> quote_identifier_spec(v) == v,
        !is_plain_identifier(v) ==> read_quoted(quote_identifier_spec(v).skip(1)) == Some(
            (v, quote_identifier_spec(v).len() - 1),
        ),
{
    reveal_strlit("\"");
    lemma_quoted_reads_back_body(v);
    if !is_plain_identifier(v) {
        let body = replace_all(v, "\""@, "\\\""@);
        assert(quote_identifier_spec(v).skip(1) =~= body + "\""@);
    }
}

/// Indexes that DBML cannot express are reported, not dropped silently:
/// every index that is not the primary key and is left out of the
/// `Indexes` block has a warning naming it.
pub proof fn lemma_left_out_indexes_are_reported(indexes: Seq<IndexInfo>, k: int)
    requires
        0 <= k < indexes.len(),
        !indexes[k].is_primary,
        !is_emittable(indexes[k]),
    ensures
        exists|j: int| 0 <= j < omissions(indexes).len() && (#[trigger] omissions(indexes)[j]).0 == indexes[k].name@,
    decreases indexes.len(),
{
    let prefix = indexes.drop_last();
    let om = omissions(indexes);
    assert(om == omissions(prefix) + omission_of(indexes.last()));
    if k == indexes.len() - 1 {
        let j = omissions(prefix).len() as int;
        assert(om[j] == omission_of(indexes.last())[0]);
    } else {
        assert(prefix[k] == indexes[k]);
        lemma_left_out_indexes_are_reported(prefix, k);
        let j = choose|j: int| 0 <= j < omissions(prefix).len() && (#[trigger] omissions(prefix)[j]).0 == prefix[k].name@;
        assert(om[j] == omissions(prefix)[j]);
    }
}

/// The index lines of two lists of indexes one after the other are the
/// lines of the first list followed by those of the second: no index's
/// line depends on, or replaces, another's.
pub proof fn lemma_index_lines_concat(s: Seq<IndexInfo>, t: Seq<IndexInfo>)
    ensures
        index_lines(s + t) == index_lines(s) + index_lines(t),
    decreases t.len(),
{
    if t.len() == 0 {
        assert(s + t =~= s);
        assert(index_lines(s) + Seq::<char>::empty() =~= index_lines(s));
    } else {
        lemma_index_lines_concat(s, t.drop_last());
        assert((s + t).drop_last() =~= s + t.drop_last());
        assert((s + t).last() == t.last());
        assert(index_lines(s + t) =~= index_lines(s) + index_lines(t));
    }
}

/// One index alone gives its rendered line when it is emittable, and no
/// line otherwise.
pub proof fn lemma_index_lines_single(x: IndexInfo)
    ensures
        index_lines(seq![x]) == (if is_emittable(x) { render_index_spec(x) } else { Seq::<char>::empty() }),
{
    assert(seq![x].drop_last() =~= Seq::<IndexInfo>::empty());
    assert(seq![x].last() == x);
    assert(index_lines(Seq::<IndexInfo>::empty()) =~= Seq::<char>::empty());
    assert(Seq::<char>::empty() + Seq::<char>::empty() =~= Seq::<char>::empty());
    assert(Seq::<char>::empty() + render_index_spec(x) =~= render_index_spec(x));
}

/// Every emittable index has its rendered line in the `Indexes` block,
/// between the lines of the indexes before it and those after it.
pub proof fn lemma_emittable_index_is_rendered(indexes: Seq<IndexInfo>, k: int)
    requires
        0 <= k < indexes.len(),
        is_emittable(indexes[k]),
    ensures
        index_lines(indexes) == index_lines(indexes.take(k)) + render_index_spec(indexes[k]) + index_lines(
            indexes.skip(k + 1),
        ),
{
    let a = indexes.take(k);
    let b = seq![indexes[k]];
    let c = indexes.skip(k + 1);
    assert(indexes =~= a + b + c);
    lemma_index_lines_concat(a + b, c);
    lemma_index_lines_concat(a, b);
    lemma_index_lines_single(indexes[k]);
}

proof fn lemma_middle_occurs(a: Seq<char>, m: Seq<char>, b: Seq<char>)
    ensures
        occurs_at(a + m + b, m, a.len() as int),
{
    assert((a + m + b).subrange(a.len() as int, (a.len() + m.len()) as int) =~= m);
}

/// A rendered table holds the line of every emittable index of the table.
pub proof fn lemma_table_shows_every_emittable_index(table: DocTable, qualify: bool, k: int)
    requires
        0 <= k < table.indexes@.len(),
        is_emittable(table.indexes@[k]),
    ensures
        has_sub(render_table_spec(table, qualify), render_index_spec(table.indexes@[k])),
{
    let ix = table.indexes@;
    lemma_emittable_index_is_rendered(ix, k);
    assert(any_emittable(ix));
    let pre = "Table "@ + qualified_spec(opt_string_view(table.schema), table.name@, qualify) + " {\n"@
        + columns_block(table.columns@, table.column_notes);
    let post = note_block(table.note) + "}\n"@;
    let r = render_table_spec(table, qualify);
    assert(r =~= pre + indexes_block(ix) + post);
    let line = render_index_spec(ix[k]);
    let before = index_lines(ix.take(k));
    let after = index_lines(ix.skip(k + 1));
    assert(indexes_block(ix) == "\n  Indexes {\n"@ + (before + line + after) + "  }\n"@);
    let head = pre + "\n  Indexes {\n"@ + before;
    let tail = after + "  }\n"@ + post;
    lemma_middle_occurs(head, line, tail);
    assert(r =~= head + line + tail);
}

/// A default that is a quoted SQL string, the empty one `''` included, is a
/// literal: it is written as it stands, without backticks.
pub proof fn lemma_quoted_default_is_literal(column: ColumnInfo)
    requires
        column.column_default is Some,
        trim(column.column_default->0@).len() >= 2,
        trim(column.column_default->0@)[0] == '\'',
        trim(column.column_default->0@).last() == '\'',
    ensures
        !looks_like_expression_spec(trim(column.column_default->0@)),
        render_default_spec(column) == Some("default: "@ + trim(column.column_default->0@)),
{
    let t = trim(column.column_default->0@);
    assert(trim_start(t) == t);
    assert(trim_end(t) == t);
}

/// Text whose trimmed form is a quoted SQL string, the empty one included,
/// is not taken for an expression.
pub proof fn lemma_quoted_text_is_not_an_expression(value: Seq<char>)
    requires
        trim(value).len() >= 2,
        trim(value)[0] == '\'',
        trim(value).last() == '\'',
    ensures
        !looks_like_expression_spec(value),
{
}

/// A bare type with a positive length is written as the trimmed type, then
/// the length in full in decimal digits, without leading zero, in brackets.
pub proof fn lemma_type_length_is_written_in_full(column: ColumnInfo)
    requires
        !trim(column.data_type@).contains('('),
        column.character_maximum_length is Some,
        column.character_maximum_length->0 > 0,
    ensures
        exists|d: Seq<char>|
            render_type_spec(column) == trim(column.data_type@) + "("@ + d + ")"@ && is_decimal_digits(d) && d.len() > 0
                && d[0] != '0' && #[trigger] decimal_value(d) == column.character_maximum_length->0,
{
    let l = column.character_maximum_length->0;
    lemma_decimal_reads_back(l as nat);
    let d = decimal(l as nat);
    assert(decimal_value(d) == l);
}

/// A bare type without a positive length but with a positive precision is
/// written as the trimmed type with the precision, and the scale when it is
/// positive, in full in decimal digits.
pub proof fn lemma_type_precision_is_written_in_full(column: ColumnInfo)
    requires
        !trim(column.data_type@).contains('('),
        !(column.character_maximum_length is Some && column.character_maximum_length->0 > 0),
        column.numeric_precision is Some,
        column.numeric_precision->0 > 0,
    ensures
        column.numeric_scale is Some && column.numeric_scale->0 > 0 ==> exists|p: Seq<char>, s: Seq<char>|
            render_type_spec(column) == trim(column.data_type@) + "("@ + p + ","@ + s + ")"@ && is_decimal_digits(p)
                && is_decimal_digits(s) && #[trigger] decimal_value(p) == column.numeric_precision->0
                && #[trigger] decimal_value(s) == column.numeric_scale->0,
        !(column.numeric_scale is Some && column.numeric_scale->0 > 0) ==> exists|p: Seq<char>|
            render_type_spec(column) == trim(column.data_type@) + "("@ + p + ")"@ && is_decimal_digits(p)
                && #[trigger] decimal_value(p) == column.numeric_precision->0,
{
    let p = column.numeric_precision->0;
    lemma_decimal_reads_back(p as nat);
    assert(decimal_value(decimal(p as nat)) == p);
    if column.numeric_scale is Some && column.numeric_scale->0 > 0 {
        let s = column.numeric_scale->0;
        lemma_decimal_reads_back(s as nat);
        assert(decimal_value(decimal(s as nat)) == s);
    }
}

/// A character the float grammar can hold, once lower-cased.
pub open spec fn numeric_char(c: char) -> bool {
    is_digit(c) || c == '.' || c == 'e' || c == '+' || c == '-'
}

proof fn lemma_exponent_chars(e: Seq<char>)
    requires
        exponent_ok(e),
    ensures
        forall|i: int| 0 <= i < e.len() ==> #[trigger] numeric_char(e[i]),
{
    if e.len() > 0 {
        let signed = e.len() > 1 && (e[1] == '+' || e[1] == '-');
        let d = if signed { e.skip(2) } else { e.drop_first() };
        assert forall|i: int| 0 <= i < e.len() implies #[trigger] numeric_char(e[i]) by {
            if i > 0 {
                if signed {
                    if i > 1 {
                        assert(e[i] == d[i - 2]);
                        assert(is_digit(d[i - 2]));
                    }
                } else {
                    assert(e[i] == d[i - 1]);
                    assert(is_digit(d[i - 1]));
                }
            }
        }
    }
}

proof fn lemma_number_chars(b: Seq<char>)
    requires
        number_ok(b),
    ensures
        forall|i: int| 0 <= i < b.len() ==> #[trigger] numeric_char(b[i]),
{
    let d1 = lead_digits(b);
    lemma_lead_digits_bound(b);
    let rest = b.skip(d1 as int);
    if rest.len() > 0 && rest[0] == '.' {
        let frac = rest.drop_first();
        let d2 = lead_digits(frac);
        lemma_lead_digits_bound(frac);
        let ex = frac.skip(d2 as int);
        lemma_exponent_chars(ex);
        assert forall|i: int| 0 <= i < b.len() implies #[trigger] numeric_char(b[i]) by {
            if i < d1 {
                assert(is_digit(b[i]));
            } else if i == d1 {
                assert(b[i] == rest[0]);
            } else if i < d1 + 1 + d2 {
                assert(b[i] == frac[i - d1 - 1]);
                assert(is_digit(frac[i - d1 - 1]));
            } else {
                assert(b[i] == ex[i - d1 - 1 - d2]);
                assert(numeric_char(ex[i - d1 - 1 - d2]));
            }
        }
    } else {
        lemma_exponent_chars(rest);
        assert forall|i: int| 0 <= i < b.len() implies #[trigger] numeric_char(b[i]) by {
            if i < d1 {
                assert(is_digit(b[i]));
            } else {
                assert(b[i] == rest[i - d1]);
                assert(numeric_char(rest[i - d1]));
            }
        }
    }
}

/// `true`, `false` and `null`, in any ASCII case, are literals.
pub proof fn lemma_keywords_are_literals(value: Seq<char>)
    requires
        ascii_lower(trim(value)) == "true"@ || ascii_lower(trim(value)) == "false"@ || ascii_lower(trim(value))
            == "null"@,
    ensures
        !looks_like_expression_spec(value),
{
}

/// A whole number written in decimal digits is a literal.
pub proof fn lemma_whole_numbers_are_literals(value: Seq<char>)
    requires
        trim(value).len() > 0,
        all_digits(trim(value)),
    ensures
        !looks_like_expression_spec(value),
{
    let t = trim(value);
    let l = ascii_lower(t);
    assert forall|i: int| 0 <= i < t.len() implies l[i] == t[i] by {
        assert(is_digit(t[i]));
    }
    assert(l =~= t);
    assert(is_digit(t[0]));
    lemma_lead_digits_of_prefix(t, t.len());
    assert(t.skip(t.len() as int) =~= Seq::<char>::empty());
    assert(number_ok(t));
    assert(is_float_literal(t));
}

/// An unquoted default holding a call, such as `now()` or
/// `nextval('orders_id_seq'::regclass)`, is an expression.
pub proof fn lemma_calls_are_expressions(value: Seq<char>, j: int)
    requires
        0 <= j < trim(value).len(),
        trim(value)[j] == '(',
        trim(value)[0] != '\'',
    ensures
        looks_like_expression_spec(value),
{
    reveal_strlit("true");
    reveal_strlit("false");
    reveal_strlit("null");
    reveal_strlit("inf");
    reveal_strlit("infinity");
    reveal_strlit("nan");
    let t = trim(value);
    let l = ascii_lower(t);
    assert(l[j] == '(');
    assert(l != "true"@ && l != "false"@ && l != "null"@) by {
        if l.len() == 4 || l.len() == 5 {
            assert(l[j] == '(');
        }
    }
    let b = if l.len() > 0 && (l[0] == '+' || l[0] == '-') { l.drop_first() } else { l };
    let k = if b.len() < l.len() { j - 1 } else { j };
    assert(0 <= k < b.len() && b[k] == '(') by {
        if b.len() < l.len() {
            assert(j != 0);
            assert(b[j - 1] == l[j]);
        }
    }
    assert(b != "inf"@ && b != "infinity"@ && b != "nan"@);
    if number_ok(b) {
        lemma_number_chars(b);
        assert(numeric_char(b[k]));
    }
    assert(!is_float_literal(t));
}

} // verus!
