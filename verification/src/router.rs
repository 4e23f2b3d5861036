//! Dialect decisions of the pool router: which dialect a registered source
//! speaks, the metadata-probe SQL per dialect, the A-Box sync query, and the
//! placeholder rewrite hook for MySQL.

use vstd::prelude::*;
use vstd::string::{StrSliceExecFns, StringExecFns};
use crate::text::{chars_vec, string_push_char};

verus! {

/// The dialects the router can drive.
#[derive(Clone, Copy, Debug, PartialEq, Eq, Structural)]
pub enum Dialect {
    Postgres,
    MySql,
}

/// Why a source cannot be routed.
#[derive(Clone, Copy, Debug, PartialEq, Eq, Structural)]
pub enum RouterError {
    /// The registered db_type names no known dialect.
    UnsupportedDbType,
}

/// ASCII lowercase of one character; anything outside A–Z is left alone.
pub open spec fn lower_char_spec(c: char) -> char {
    if 'A' <= c <= 'Z' {
        ((c as u8) + 32) as char
    } else {
        c
    }
}

/// ASCII lowercase of a character sequence.
pub open spec fn ascii_lower_seq(s: Seq<char>) -> Seq<char> {
    Seq::new(s.len(), |i: int| lower_char_spec(s[i]))
}

/// ASCII lowercase of one character.
fn lower_char(c: char) -> (r: char)
    ensures
        r == lower_char_spec(c),
{
    if c >= 'A' && c <= 'Z' {
        ((c as u8) + 32) as char
    } else {
        c
    }
}

/// Case-insensitive (ASCII) character equality of two strings.
fn eq_ignore_ascii(a: &str, b: &str) -> (r: bool)
    ensures
        r == (ascii_lower_seq(a@) == ascii_lower_seq(b@)),
{
    let n = a.unicode_len();
    let m = b.unicode_len();
    if n != m {
        assert(ascii_lower_seq(a@).len() != ascii_lower_seq(b@).len());
        return false;
    }
    let mut i: usize = 0;
    while i < n
        invariant
            i <= n,
            n == a@.len(),
            n == b@.len(),
            forall|k: int| 0 <= k < i ==> lower_char_spec(a@[k]) == lower_char_spec(b@[k]),
        decreases n - i,
    {
        if lower_char(a.get_char(i)) != lower_char(b.get_char(i)) {
            assert(ascii_lower_seq(a@)[i as int] != ascii_lower_seq(b@)[i as int]);
            return false;
        }
        i = i + 1;
    }
    assert(ascii_lower_seq(a@) =~= ascii_lower_seq(b@));
    true
}

/// Resolves a registered db_type to its dialect: `postgres` and
/// `postgresql` (any ASCII case) speak Postgres, `mysql` speaks MySQL,
/// everything else is refused.
pub fn dialect_of(db_type: &str) -> (r: Result<Dialect, RouterError>)
    ensures
        r == (if ascii_lower_seq(db_type@) == "postgres"@ || ascii_lower_seq(db_type@)
            == "postgresql"@ {
            Ok::<Dialect, RouterError>(Dialect::Postgres)
        } else if ascii_lower_seq(db_type@) == "mysql"@ {
            Ok::<Dialect, RouterError>(Dialect::MySql)
        } else {
            Err::<Dialect, RouterError>(RouterError::UnsupportedDbType)
        }),
{
    proof {
        reveal_strlit("postgres");
        reveal_strlit("postgresql");
        reveal_strlit("mysql");
        assert(ascii_lower_seq("postgres"@) =~= "postgres"@);
        assert(ascii_lower_seq("postgresql"@) =~= "postgresql"@);
        assert(ascii_lower_seq("mysql"@) =~= "mysql"@);
    }
    if eq_ignore_ascii(db_type, "postgres") || eq_ignore_ascii(db_type, "postgresql") {
        Ok(Dialect::Postgres)
    } else if eq_ignore_ascii(db_type, "mysql") {
        Ok(Dialect::MySql)
    } else {
        Err(RouterError::UnsupportedDbType)
    }
}

/// The table-listing probe of each dialect.
pub fn list_tables_sql(d: Dialect) -> (r: String)
    ensures
        d == Dialect::Postgres ==> r@
            == "SELECT tablename FROM pg_catalog.pg_tables WHERE schemaname = 'public'"@,
        d == Dialect::MySql ==> r@ == "SHOW TABLES"@,
{
    match d {
        Dialect::Postgres => {
            "SELECT tablename FROM pg_catalog.pg_tables WHERE schemaname = 'public'".to_owned()
        },
        Dialect::MySql => "SHOW TABLES".to_owned(),
    }
}

/// The column-listing probe of each dialect for one table.
pub fn list_columns_sql(d: Dialect, table: &str) -> (r: String)
    ensures
        d == Dialect::Postgres ==> r@
            == "SELECT column_name FROM information_schema.columns WHERE table_name = $1"@,
        d == Dialect::MySql ==> r@ == "DESCRIBE "@ + table@,
{
    match d {
        Dialect::Postgres => {
            "SELECT column_name FROM information_schema.columns WHERE table_name = $1".to_owned()
        },
        Dialect::MySql => {
            let mut s = "DESCRIBE ".to_owned();
            s.append(table);
            s
        },
    }
}

/// The A-Box sync query: the distinct values of a node's expression, cast
/// to text, over its physical table.
pub fn sync_values_sql(sql_expression: &str, target_table: &str) -> (r: String)
    ensures
        r@ == "SELECT DISTINCT ("@ + sql_expression@ + ") :: text as val FROM "@ + target_table@,
{
    let mut s = "SELECT DISTINCT (".to_owned();
    s.append(sql_expression);
    s.append(") :: text as val FROM ");
    s.append(target_table);
    s
}

// ---------------------------------------------------------------------------
// Placeholder rewrite
// ---------------------------------------------------------------------------

/// An ASCII decimal digit.
pub open spec fn is_ascii_digit_char(c: char) -> bool {
    '0' <= c <= '9'
}

/// The text with every `$` followed by digits replaced by a single `?`.
pub open spec fn rewrite_ph(s: Seq<char>) -> Seq<char>
    decreases s.len(), 0int,
{
    if s.len() == 0 {
        Seq::empty()
    } else if s.len() >= 2 && s[0] == '$' && is_ascii_digit_char(s[1]) {
        seq!['?'] + rewrite_digits(s.skip(2))
    } else {
        seq![s[0]] + rewrite_ph(s.skip(1))
    }
}

/// Skips the rest of a digit run, then resumes the rewrite.
pub open spec fn rewrite_digits(s: Seq<char>) -> Seq<char>
    decreases s.len(), 2int,
{
    if s.len() > 0 && is_ascii_digit_char(s[0]) {
        rewrite_digits(s.skip(1))
    } else {
        rewrite_ph_after(s)
    }
}

/// Indirection so the mutual recursion terminates lexicographically.
pub open spec fn rewrite_ph_after(s: Seq<char>) -> Seq<char>
    decreases s.len(), 1int,
{
    rewrite_ph(s)
}

/// Rewrites Postgres-style `$n` placeholders to `?` when the target source
/// is MySQL; a Postgres target keeps the text unchanged. The current
/// lowering inlines every value, so this is the hook for a future
/// parameterized mode.
#[verifier::loop_isolation(false)]
pub fn rewrite_placeholders(sql: &str, d: Dialect) -> (r: String)
    ensures
        d == Dialect::Postgres ==> r@ == sql@,
        d == Dialect::MySql ==> r@ == rewrite_ph(sql@),
{
    match d {
        Dialect::Postgres => sql.to_owned(),
        Dialect::MySql => {
            let cs = chars_vec(sql);
            let n = cs.len();
            let mut out = String::new();
            let mut i: usize = 0;
            proof {
                assert(sql@.skip(0) =~= sql@);
            }
            while i < n
                invariant
                    i <= n,
                    n == sql@.len(),
                    cs@ == sql@,
                    rewrite_ph(sql@) =~= out@ + rewrite_ph(sql@.skip(i as int)),
                decreases n - i,
            {
                let ghost pre = out@;
                if cs[i] == '$' && i + 1 < n && cs[i + 1] >= '0' && cs[i + 1] <= '9' {
                    string_push_char(&mut out, '?');
                    let mut j: usize = i + 2;
                    proof {
                        assert(rewrite_ph(sql@.skip(i as int)) =~= seq!['?'] + rewrite_digits(
                            sql@.skip(i as int).skip(2),
                        ));
                        assert(sql@.skip(i as int).skip(2) =~= sql@.skip(i + 2));
                    }
                    while j < n && cs[j] >= '0' && cs[j] <= '9'
                        invariant
                            i + 2 <= j <= n,
                            rewrite_digits(sql@.skip(i + 2)) == rewrite_digits(
                                sql@.skip(j as int),
                            ),
                        decreases n - j,
                    {
                        proof {
                            assert(sql@.skip(j as int).skip(1) =~= sql@.skip(j + 1));
                        }
                        j = j + 1;
                    }
                    proof {
                        let t = sql@.skip(j as int);
                        assert(t.len() == n - j);
                        if j < n {
                            assert(t[0] == sql@[j as int]);
                            assert(!is_ascii_digit_char(t[0]));
                        }
                        assert(rewrite_digits(t) == rewrite_ph_after(t));
                        assert(rewrite_ph_after(t) == rewrite_ph(t));
                        assert(rewrite_ph(sql@) =~= pre + seq!['?'] + rewrite_ph(
                            sql@.skip(j as int),
                        ));
                        assert(out@ =~= pre + seq!['?']);
                    }
                    i = j;
                } else {
                    string_push_char(&mut out, cs[i]);
                    proof {
                        assert(rewrite_ph(sql@.skip(i as int)) =~= seq![sql@[i as int]]
                            + rewrite_ph(sql@.skip(i as int).skip(1)));
                        assert(sql@.skip(i as int).skip(1) =~= sql@.skip(i + 1));
                        assert(out@ =~= pre + seq![sql@[i as int]]);
                    }
                    i = i + 1;
                }
            }
            proof {
                assert(sql@.skip(n as int) =~= Seq::<char>::empty());
                assert(rewrite_ph(sql@) =~= out@);
            }
            out
        },
    }
}

} // verus!
