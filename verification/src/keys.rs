//! Canonical keys that match notes to tables and columns.
use vstd::prelude::*;
use crate::model::DatabaseType;
use crate::text::{ascii_lower, ascii_upper, push_str, string_of};

verus! {

/// Unicode lower case (`str::to_lowercase`).
pub uninterp spec fn unicode_lower(s: Seq<char>) -> Seq<char>;

/// Unicode upper case (`str::to_uppercase`).
pub uninterp spec fn unicode_upper(s: Seq<char>) -> Seq<char>;

/// Every character is ASCII.
pub open spec fn all_ascii(s: Seq<char>) -> bool {
    forall|i: int| 0 <= i < s.len() ==> (#[trigger] s[i] as u32) < 128
}

/// Calls `str::to_lowercase`. The result is a function of the input
/// alone; on ASCII input it is the ASCII lower case, since the Unicode
/// lowercase mapping of `A`..=`Z` is `a`..=`z` and every other ASCII
/// character maps to itself. Nothing is claimed of other input.
#[verifier::external_body]
fn to_lowercase(s: &str) -> (r: String)
    ensures
        r@ == unicode_lower(s@),
        all_ascii(s@) ==> r@ == ascii_lower(s@),
{
    s.to_lowercase()
}

/// Calls `str::to_uppercase`. The result is a function of the input
/// alone; on ASCII input it is the ASCII upper case, since the Unicode
/// uppercase mapping of `a`..=`z` is `A`..=`Z` and every other ASCII
/// character maps to itself. Nothing is claimed of other input.
#[verifier::external_body]
fn to_uppercase(s: &str) -> (r: String)
    ensures
        r@ == unicode_upper(s@),
        all_ascii(s@) ==> r@ == ascii_upper(s@),
{
    s.to_uppercase()
}

/// The canonical case of an identifier for note matching: upper case on
/// Oracle, lower case everywhere else.
pub open spec fn fold_spec(db_type: DatabaseType, value: Seq<char>) -> Seq<char> {
    match db_type {
        DatabaseType::Oracle => unicode_upper(value),
        _ => unicode_lower(value),
    }
}

/// The canonical case of an ASCII identifier.
pub open spec fn ascii_fold(db_type: DatabaseType, value: Seq<char>) -> Seq<char> {
    match db_type {
        DatabaseType::Oracle => ascii_upper(value),
        _ => ascii_lower(value),
    }
}

/// The key of an ASCII table name.
pub open spec fn ascii_table_key(db_type: DatabaseType, schema: Option<&str>, table: Seq<char>) -> Seq<char> {
    match present_schema(schema) {
        Some(s) => ascii_fold(db_type, s) + "."@ + ascii_fold(db_type, table),
        None => ascii_fold(db_type, table),
    }
}

/// The schema part of a key, if present, is ASCII.
pub open spec fn ascii_schema(schema: Option<&str>) -> bool {
    match schema {
        Some(s) => all_ascii(s@),
        None => true,
    }
}

/// The schema part of a key, when there is one that is not empty.
pub open spec fn present_schema(schema: Option<&str>) -> Option<Seq<char>> {
    match schema {
        Some(s) => if s@.len() > 0 { Some(s@) } else { None },
        None => None,
    }
}

/// `schema.table`, or bare `table` when there is no schema.
pub open spec fn table_key_spec(db_type: DatabaseType, schema: Option<&str>, table: Seq<char>) -> Seq<char> {
    match present_schema(schema) {
        Some(s) => fold_spec(db_type, s) + "."@ + fold_spec(db_type, table),
        None => fold_spec(db_type, table),
    }
}

/// `schema.table.column`, or `table.column` when there is no schema.
pub open spec fn column_key_spec(
    db_type: DatabaseType,
    schema: Option<&str>,
    table: Seq<char>,
    column: Seq<char>,
) -> Seq<char> {
    table_key_spec(db_type, schema, table) + "."@ + fold_spec(db_type, column)
}

/// Fold an identifier to its canonical case for note matching.
///
/// PostgreSQL folds unquoted identifiers to lower case, Oracle to upper.
/// MySQL depends on the server's `lower_case_table_names`; we fold to lower
/// unconditionally: on the rare case-sensitive configuration the only risk
/// is matching a note to a table differing solely by case, never attaching
/// a note to an unrelated table.
pub fn fold_identifier(db_type: DatabaseType, value: &str) -> (r: String)
    ensures
        r@ == fold_spec(db_type, value@),
        all_ascii(value@) ==> r@ == ascii_fold(db_type, value@),
{
    match db_type {
        DatabaseType::Oracle => to_uppercase(value),
        _ => to_lowercase(value),
    }
}

/// `schema.table`, or bare `table` when there is no schema.
pub fn table_key(db_type: DatabaseType, schema: Option<&str>, table: &str) -> (r: String)
    ensures
        r@ == table_key_spec(db_type, schema, table@),
        ascii_schema(schema) && all_ascii(table@) ==> r@ == ascii_table_key(db_type, schema, table@),
{
    let present = match schema {
        Some(s) => if s.is_empty() { None } else { Some(s) },
        None => None,
    };
    match present {
        Some(s) => {
            let mut out: Vec<char> = Vec::new();
            let folded_schema = fold_identifier(db_type, s);
            let folded_table = fold_identifier(db_type, table);
            push_str(&mut out, folded_schema.as_str());
            push_str(&mut out, ".");
            push_str(&mut out, folded_table.as_str());
            string_of(&out)
        },
        None => fold_identifier(db_type, table),
    }
}

/// `schema.table.column`, or `table.column` when there is no schema.
pub fn column_key(db_type: DatabaseType, schema: Option<&str>, table: &str, column: &str) -> (r:
    String)
    ensures
        r@ == column_key_spec(db_type, schema, table@, column@),
        r@ == table_key_spec(db_type, schema, table@) + "."@ + fold_spec(db_type, column@),
{
    let mut out: Vec<char> = Vec::new();
    let key = table_key(db_type, schema, table);
    let folded_column = fold_identifier(db_type, column);
    push_str(&mut out, key.as_str());
    push_str(&mut out, ".");
    push_str(&mut out, folded_column.as_str());
    string_of(&out)
}

/// Folding an ASCII identifier twice gives what folding it once gives.
pub proof fn lemma_fold_idempotent(db_type: DatabaseType, value: Seq<char>)
    ensures
        ascii_fold(db_type, ascii_fold(db_type, value)) == ascii_fold(db_type, value),
{
    assert(ascii_lower(ascii_lower(value)) =~= ascii_lower(value));
    assert(ascii_upper(ascii_upper(value)) =~= ascii_upper(value));
}

/// A table key built from ASCII names is already in canonical case:
/// folding it again changes nothing.
pub proof fn lemma_table_key_is_folded(db_type: DatabaseType, schema: Option<&str>, table: Seq<char>)
    ensures
        ascii_fold(db_type, ascii_table_key(db_type, schema, table)) == ascii_table_key(
            db_type,
            schema,
            table,
        ),
{
    reveal_strlit(".");
    lemma_fold_idempotent(db_type, table);
    match present_schema(schema) {
        Some(s) => {
            lemma_fold_idempotent(db_type, s);
            let a = ascii_fold(db_type, s);
            let b = ascii_fold(db_type, table);
            assert(ascii_lower(a + "."@ + b) =~= ascii_lower(a) + "."@ + ascii_lower(b));
            assert(ascii_upper(a + "."@ + b) =~= ascii_upper(a) + "."@ + ascii_upper(b));
        },
        None => {},
    }
}

/// No `.` in the name.
pub open spec fn dot_free(s: Seq<char>) -> bool {
    !s.contains('.')
}

/// The schema, when present and not empty, has no `.`.
pub open spec fn schema_dot_free(schema: Option<&str>) -> bool {
    match present_schema(schema) {
        Some(s) => dot_free(s),
        None => true,
    }
}

proof fn lemma_fold_dot_free(db_type: DatabaseType, s: Seq<char>)
    requires
        dot_free(s),
    ensures
        dot_free(ascii_fold(db_type, s)),
        ascii_fold(db_type, s).len() == s.len(),
{
    let f = ascii_fold(db_type, s);
    if f.contains('.') {
        let i = choose|i: int| 0 <= i < f.len() && f[i] == '.';
        assert(s[i] != '.') by {
            if s[i] == '.' {
                assert(s.contains('.'));
            }
        }
    }
}

proof fn lemma_split_at_dot(a1: Seq<char>, b1: Seq<char>, a2: Seq<char>, b2: Seq<char>)
    requires
        dot_free(a1),
        dot_free(a2),
        a1 + "."@ + b1 == a2 + "."@ + b2,
    ensures
        a1 == a2,
        b1 == b2,
{
    reveal_strlit(".");
    let l = a1 + "."@ + b1;
    let r = a2 + "."@ + b2;
    if a1.len() < a2.len() {
        assert(l[a1.len() as int] == '.');
        assert(r[a1.len() as int] == a2[a1.len() as int]);
        assert(a2.contains(a2[a1.len() as int]));
    } else if a2.len() < a1.len() {
        assert(r[a2.len() as int] == '.');
        assert(l[a2.len() as int] == a1[a2.len() as int]);
        assert(a1.contains(a1[a2.len() as int]));
    }
    assert(a1 =~= l.subrange(0, a1.len() as int));
    assert(a2 =~= r.subrange(0, a2.len() as int));
    assert(b1 =~= l.skip(a1.len() + 1int));
    assert(b2 =~= r.skip(a2.len() + 1int));
}

/// Two tables whose names hold no `.` get the same key only when their
/// names differ solely by case: a note can be matched to a table that
/// differs from its own only in case, never to an unrelated one.
pub proof fn lemma_equal_keys_differ_only_by_case(
    db_type: DatabaseType,
    s1: Option<&str>,
    t1: Seq<char>,
    s2: Option<&str>,
    t2: Seq<char>,
)
    requires
        schema_dot_free(s1),
        schema_dot_free(s2),
        dot_free(t1),
        dot_free(t2),
        ascii_table_key(db_type, s1, t1) == ascii_table_key(db_type, s2, t2),
    ensures
        (present_schema(s1) is Some) == (present_schema(s2) is Some),
        present_schema(s1) is Some ==> ascii_fold(db_type, present_schema(s1)->0) == ascii_fold(
            db_type,
            present_schema(s2)->0,
        ),
        ascii_fold(db_type, t1) == ascii_fold(db_type, t2),
{
    reveal_strlit(".");
    lemma_fold_dot_free(db_type, t1);
    lemma_fold_dot_free(db_type, t2);
    let k = ascii_table_key(db_type, s1, t1);
    match (present_schema(s1), present_schema(s2)) {
        (Some(a1), Some(a2)) => {
            lemma_fold_dot_free(db_type, a1);
            lemma_fold_dot_free(db_type, a2);
            lemma_split_at_dot(
                ascii_fold(db_type, a1),
                ascii_fold(db_type, t1),
                ascii_fold(db_type, a2),
                ascii_fold(db_type, t2),
            );
        },
        (Some(a1), None) => {
            let f = ascii_fold(db_type, a1);
            lemma_fold_dot_free(db_type, a1);
            assert(k[f.len() as int] == '.');
            assert(ascii_fold(db_type, t2).contains(k[f.len() as int]));
        },
        (None, Some(a2)) => {
            let f = ascii_fold(db_type, a2);
            lemma_fold_dot_free(db_type, a2);
            let k2 = ascii_table_key(db_type, s2, t2);
            assert(k2[f.len() as int] == '.');
            assert(ascii_fold(db_type, t1).contains(k2[f.len() as int]));
        },
        (None, None) => {},
    }
}

} // verus!
