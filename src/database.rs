//! Commands for the database client: which program to run with which
//! arguments, and the statements that create the indexes.

use vstd::prelude::*;
use crate::text::chars_of;
use vstd::string::StringExecFns;

verus! {

/// How to reach the database: its user and password, and the container it
/// runs in, if any.
pub struct DatabaseContext {
    pub user: String,
    pub pass: String,
    pub container: Option<String>,
}

/// The client program and its arguments for `ctx`: `psql -U <user>`, or,
/// inside a container, `docker exec -i <container> psql -U <user>`. The
/// password travels in the environment, not here.
pub fn psql_invocation(ctx: &DatabaseContext) -> (r: (String, Vec<String>))
    ensures
        match ctx.container {
            None => r.0@ == "psql"@ && r.1@.len() == 2 && r.1@[0]@ == "-U"@ && r.1@[1]@
                == ctx.user@,
            Some(c) => r.0@ == "docker"@ && r.1@.len() == 6 && r.1@[0]@ == "exec"@ && r.1@[1]@
                == "-i"@ && r.1@[2]@ == c@ && r.1@[3]@ == "psql"@ && r.1@[4]@ == "-U"@
                && r.1@[5]@ == ctx.user@,
        },
{
    match &ctx.container {
        None => {
            let mut args: Vec<String> = Vec::new();
            args.push(String::from_str("-U"));
            args.push(ctx.user.clone());
            (String::from_str("psql"), args)
        },
        Some(c) => {
            let mut args: Vec<String> = Vec::new();
            args.push(String::from_str("exec"));
            args.push(String::from_str("-i"));
            args.push(c.clone());
            args.push(String::from_str("psql"));
            args.push(String::from_str("-U"));
            args.push(ctx.user.clone());
            (String::from_str("docker"), args)
        },
    }
}

/// The statement that indexes `column` of `table` in the `unipept` schema.
pub fn index_statement(table: &str, column: &str) -> (r: String)
    ensures
        r@ == "CREATE INDEX idx_"@ + column@ + " ON unipept."@ + table@ + "("@ + column@
            + ");"@,
{
    let mut s = String::from_str("CREATE INDEX idx_");
    s.append(column);
    s.append(" ON unipept.");
    s.append(table);
    s.append("(");
    s.append(column);
    s.append(");");
    s
}

/// Splits `table:column` at its first `:`.
pub fn split_table_column(entry: &str) -> (r: Option<(String, String)>)
    ensures
        match r {
            Some((t, c)) => exists|p: int|
                0 <= p < entry@.len() && entry@[p] == ':' && (forall|q: int|
                    0 <= q < p ==> entry@[q] != ':') && t@ == entry@.take(p) && c@ == entry@.skip(
                    p + 1,
                ),
            None => forall|q: int| 0 <= q < entry@.len() ==> entry@[q] != ':',
        },
{
    let cs = chars_of(entry);
    let mut p: usize = 0;
    while p < cs.len() && cs[p] != ':'
        invariant
            p <= cs@.len(),
            cs@ == entry@,
            forall|q: int| 0 <= q < p ==> entry@[q] != ':',
        decreases cs@.len() - p,
    {
        p = p + 1;
    }
    if p == cs.len() {
        return None;
    }
    let t = crate::text::string_of(vstd::slice::slice_subrange(cs.as_slice(), 0, p));
    let c = crate::text::string_of(vstd::slice::slice_subrange(cs.as_slice(), p + 1, cs.len()));
    assert(t@ =~= entry@.take(p as int));
    assert(c@ =~= entry@.skip(p + 1));
    Some((t, c))
}

} // verus!
