//! The cookie store: listing the stored domains, previewing what a delete
//! would remove, and the atomic delete itself.
//!
//! The store behind a `rusqlite::Connection` is modelled as the multiset of
//! host keys of its cookie rows (`store_rows`): one element per row, so a
//! domain with several cookies occurs several times.  Every contract below
//! speaks of that model.

use vstd::multiset::Multiset;
use vstd::prelude::*;
use vstd::string::StringExecFns;

use crate::classify::{classify, domain_views, lemma_filter_members};
use crate::whitelist::{whitelist_match, CompiledWhitelist};

verus! {

#[verifier::external_type_specification]
#[verifier::external_body]
pub struct ExConnection(rusqlite::Connection);

#[verifier::external_type_specification]
#[verifier::external_body]
pub struct ExSqliteError(rusqlite::Error);

/// The cookie rows stored behind a connection, as the multiset of their host
/// keys: one element per row.
pub uninterp spec fn store_rows(conn: rusqlite::Connection) -> Multiset<Seq<char>>;

/// The set of distinct domains that have at least one cookie row.
pub open spec fn stored_domains(conn: rusqlite::Connection) -> Set<Seq<char>> {
    store_rows(conn).dom()
}

/// The rows a delete with this allowed list keeps: those whose host key is in
/// the list.
pub open spec fn kept_rows(rows: Multiset<Seq<char>>, allowed: Seq<Seq<char>>) -> Multiset<
    Seq<char>,
> {
    rows.filter(|d: Seq<char>| allowed.contains(d))
}

/// The rows a delete with this allowed list removes: those whose host key is
/// not in the list.
pub open spec fn condemned_rows(rows: Multiset<Seq<char>>, allowed: Seq<Seq<char>>) -> Multiset<
    Seq<char>,
> {
    rows.filter(|d: Seq<char>| !allowed.contains(d))
}

/// A failure of the underlying store; a read failure is distinguished from a
/// write failure, and a write failure leaves the store unchanged.
#[derive(Debug)]
pub enum StorageError {
    Read(rusqlite::Error),
    Write(rusqlite::Error),
}

/// Strict lexicographic order on domains, by character: the order in which
/// the store lists distinct host keys.
pub open spec fn lex_lt(a: Seq<char>, b: Seq<char>) -> bool
    decreases a.len(),
{
    if b.len() == 0 {
        false
    } else if a.len() == 0 {
        true
    } else if a[0] != b[0] {
        a[0] < b[0]
    } else {
        lex_lt(a.skip(1), b.skip(1))
    }
}

/// Whether the domains of a listing come in strictly ascending lexicographic
/// order (which also makes them pairwise distinct).
pub open spec fn sorted_ascending(s: Seq<Seq<char>>) -> bool {
    forall|i: int, j: int| 0 <= i < j < s.len() ==> lex_lt(s[i], s[j])
}

/// The value-list placeholders of a parameterized `not in` predicate:
/// one `?` per bound value, comma-separated.
pub open spec fn placeholder_list(n: nat) -> Seq<char>
    decreases n,
{
    if n == 0 {
        Seq::empty()
    } else if n == 1 {
        "?"@
    } else {
        placeholder_list((n - 1) as nat) + ",?"@
    }
}

/// The text of the read query behind `preview`: every host key not in the
/// bound value list.
pub open spec fn select_condemned_sql(n: nat) -> Seq<char> {
    "select host_key from cookies where host_key not in ("@ + placeholder_list(n) + ")"@
}

/// The text of the mutating statement behind `delete_condemned`: remove every
/// row whose host key is not in the bound value list.
pub open spec fn delete_condemned_sql(n: nat) -> Seq<char> {
    "delete from cookies where host_key not in ("@ + placeholder_list(n) + ")"@
}

/// Builds `head` + one placeholder per value + the closing parenthesis: the
/// one parameterized predicate that the preview query and the delete
/// statement share.
fn not_in_query(head: &str, n: usize) -> (q: String)
    ensures
        q@ == head@ + placeholder_list(n as nat) + ")"@,
{
    let mut q = String::new();
    q.append(head);
    proof {
        assert(q@ =~= head@ + placeholder_list(0));
    }
    let mut i: usize = 0;
    while i < n
        invariant
            i <= n,
            q@ == head@ + placeholder_list(i as nat),
        decreases n - i,
    {
        if i == 0 {
            q.append("?");
        } else {
            q.append(",?");
        }
        proof {
            assert(q@ =~= head@ + placeholder_list((i + 1) as nat));
        }
        i = i + 1;
    }
    q.append(")");
    q
}

/// Relies on `rusqlite::Connection::prepare` and `Statement::query_map`
/// running `select distinct host_key from cookies order by host_key`: on
/// success the rows are the distinct stored host keys, in ascending order
/// (SQLite's default binary collation, which on UTF-8 text is the
/// lexicographic order of the characters); on any failure an error is
/// returned and nothing is read.
#[verifier::external_body]
fn select_all_hosts(conn: &rusqlite::Connection) -> (r: Result<Vec<String>, rusqlite::Error>)
    ensures
        r matches Ok(hosts) ==> {
            &&& sorted_ascending(domain_views(hosts@))
            &&& domain_views(hosts@).to_set() == stored_domains(*conn)
        },
{
    let mut stmt = conn.prepare("select distinct host_key from cookies order by host_key;")?;
    let rows = stmt.query_map([], |row| row.get(0))?;
    rows.collect()
}

/// Relies on `rusqlite::Connection::prepare` and `Statement::query_map`
/// running the parameterized `select … not in` query with the allowed
/// domains bound to the placeholders: on success the returned host keys are,
/// as a multiset, exactly the stored rows whose host key is not an allowed
/// domain; on any failure an error is returned and nothing is read.
#[verifier::external_body]
fn select_condemned(conn: &rusqlite::Connection, sql: &str, allowed: &Vec<String>) -> (r: Result<
    Vec<String>,
    rusqlite::Error,
>)
    requires
        sql@ == select_condemned_sql(allowed@.len() as nat),
    ensures
        r matches Ok(rows) ==> domain_views(rows@).to_multiset() == condemned_rows(
            store_rows(*conn),
            domain_views(allowed@),
        ),
{
    let mut stmt = conn.prepare(sql)?;
    let rows = stmt.query_map(rusqlite::params_from_iter(allowed.iter()), |row| row.get(0))?;
    rows.collect()
}

/// Relies on `rusqlite::Connection::transaction`, `Transaction::execute` and
/// `Transaction::commit` running the parameterized `delete … not in`
/// statement with the allowed domains bound to the placeholders, as one
/// transaction: on success exactly the rows whose host key is not an allowed
/// domain are gone and their number is returned; on any failure the
/// transaction is rolled back (`Transaction` rolls back when dropped
/// uncommitted) and the store is unchanged.
#[verifier::external_body]
fn delete_condemned_rows(conn: &mut rusqlite::Connection, sql: &str, allowed: &Vec<String>) -> (r:
    Result<usize, rusqlite::Error>)
    requires
        sql@ == delete_condemned_sql(allowed@.len() as nat),
    ensures
        r matches Ok(n) ==> {
            &&& store_rows(*final(conn)) == kept_rows(
                store_rows(*old(conn)),
                domain_views(allowed@),
            )
            &&& n == condemned_rows(store_rows(*old(conn)), domain_views(allowed@)).len()
        },
        r is Err ==> store_rows(*final(conn)) == store_rows(*old(conn)),
{
    let tx = conn.transaction()?;
    let n = tx.execute(sql, rusqlite::params_from_iter(allowed.iter()))?;
    tx.commit()?;
    Ok(n)
}

/// Lists the distinct domains that have cookie rows, in ascending
/// lexicographic order; never a partial or stale set.
pub fn list_domains(conn: &rusqlite::Connection) -> (r: Result<Vec<String>, StorageError>)
    ensures
        r matches Ok(hosts) ==> {
            &&& sorted_ascending(domain_views(hosts@))
            &&& domain_views(hosts@).no_duplicates()
            &&& domain_views(hosts@).to_set() == stored_domains(*conn)
        },
        r matches Err(e) ==> e is Read,
{
    match select_all_hosts(conn) {
        Ok(hosts) => {
            proof {
                lemma_sorted_no_duplicates(domain_views(hosts@));
            }
            Ok(hosts)
        },
        Err(e) => Err(StorageError::Read(e)),
    }
}

/// Returns, without mutating anything, the host keys of exactly the rows
/// that `delete_condemned` with the same allowed list would remove.
pub fn preview(conn: &rusqlite::Connection, allowed: &Vec<String>) -> (r: Result<
    Vec<String>,
    StorageError,
>)
    ensures
        r matches Ok(rows) ==> domain_views(rows@).to_multiset() == condemned_rows(
            store_rows(*conn),
            domain_views(allowed@),
        ),
        r matches Err(e) ==> e is Read,
{
    let sql = not_in_query("select host_key from cookies where host_key not in (", allowed.len());
    match select_condemned(conn, sql.as_str(), allowed) {
        Ok(rows) => Ok(rows),
        Err(e) => Err(StorageError::Read(e)),
    }
}

/// Deletes, in one atomic transaction, every cookie row whose domain is not
/// in the allowed list, and reports how many rows were removed.  On failure
/// the store is left exactly as it was.
pub fn delete_condemned(conn: &mut rusqlite::Connection, allowed: &Vec<String>) -> (r: Result<
    usize,
    StorageError,
>)
    ensures
        r matches Ok(n) ==> {
            &&& store_rows(*final(conn)) == kept_rows(
                store_rows(*old(conn)),
                domain_views(allowed@),
            )
            &&& n == condemned_rows(store_rows(*old(conn)), domain_views(allowed@)).len()
        },
        r is Err ==> store_rows(*final(conn)) == store_rows(*old(conn)),
        r matches Err(e) ==> e is Write,
{
    let sql = not_in_query("delete from cookies where host_key not in (", allowed.len());
    match delete_condemned_rows(conn, sql.as_str(), allowed) {
        Ok(n) => Ok(n),
        Err(e) => Err(StorageError::Write(e)),
    }
}

/// Lists the domains the whitelist accepts among those that have cookie
/// rows, in ascending lexicographic order: the allowed domains.
pub fn list_allowed(conn: &rusqlite::Connection, whitelist: &CompiledWhitelist) -> (r: Result<
    Vec<String>,
    StorageError,
>)
    ensures
        r matches Ok(v) ==> {
            &&& sorted_ascending(domain_views(v@))
            &&& domain_views(v@).no_duplicates()
            &&& forall|d: Seq<char>| #[trigger]
                domain_views(v@).contains(d) <==> stored_domains(*conn).contains(d)
                    && whitelist_match(whitelist@, d)
        },
        r matches Err(e) ==> e is Read,
{
    match list_domains(conn) {
        Err(e) => Err(e),
        Ok(hosts) => {
            let (allowed, _condemned) = classify(&hosts, whitelist);
            proof {
                let hv = domain_views(hosts@);
                let accept = |d: Seq<char>| whitelist_match(whitelist@, d);
                lemma_filter_sorted(hv, accept);
                lemma_sorted_no_duplicates(hv.filter(accept));
                lemma_filter_members(hv, accept);
                assert forall|d: Seq<char>|
                    stored_domains(*conn).contains(d) && whitelist_match(
                        whitelist@,
                        d,
                    ) implies #[trigger] domain_views(allowed@).contains(d) by {
                    assert(hv.to_set().contains(d));
                    let i = choose|i: int| 0 <= i < hv.len() && hv[i] == d;
                    hv.lemma_filter_contains(accept, i);
                }
                assert forall|d: Seq<char>| #[trigger]
                    domain_views(allowed@).contains(d) implies stored_domains(*conn).contains(d)
                    && whitelist_match(whitelist@, d) by {
                    assert(hv.contains(d));
                    assert(hv.to_set().contains(d));
                }
            }
            Ok(allowed)
        },
    }
}

/// Preview and execute agree: with the same store contents and the same
/// allowed list, the domains the preview reports are exactly those that a
/// successful delete leaves without any rows in the store.
pub proof fn lemma_preview_execute_agreement(rows: Multiset<Seq<char>>, allowed: Seq<Seq<char>>)
    ensures
        condemned_rows(rows, allowed).dom() =~= rows.dom().difference(
            kept_rows(rows, allowed).dom(),
        ),
{
    broadcast use vstd::multiset::group_multiset_axioms;

    assert forall|d: Seq<char>|
        condemned_rows(rows, allowed).dom().contains(d) == rows.dom().difference(
            kept_rows(rows, allowed).dom(),
        ).contains(d) by {
        assert(condemned_rows(rows, allowed).count(d) == if !allowed.contains(d) {
            rows.count(d)
        } else {
            0
        });
        assert(kept_rows(rows, allowed).count(d) == if allowed.contains(d) {
            rows.count(d)
        } else {
            0
        });
    }
}

/// A second delete with the same allowed list finds nothing left to remove:
/// it reports zero rows and leaves the store exactly as the first delete
/// left it.
pub proof fn lemma_delete_idempotent(rows: Multiset<Seq<char>>, allowed: Seq<Seq<char>>)
    ensures
        condemned_rows(kept_rows(rows, allowed), allowed).len() == 0,
        kept_rows(kept_rows(rows, allowed), allowed) == kept_rows(rows, allowed),
{
    broadcast use vstd::multiset::group_multiset_axioms;

    assert(condemned_rows(kept_rows(rows, allowed), allowed) =~= Multiset::<Seq<char>>::empty());
    assert(kept_rows(kept_rows(rows, allowed), allowed) =~= kept_rows(rows, allowed));
}

/// Filtering keeps the listing order: a filtered strictly ascending listing
/// is still strictly ascending.
proof fn lemma_filter_sorted(s: Seq<Seq<char>>, pred: spec_fn(Seq<char>) -> bool)
    requires
        sorted_ascending(s),
    ensures
        sorted_ascending(s.filter(pred)),
    decreases s.len(),
{
    reveal(Seq::filter);
    if s.len() > 0 {
        let rest = s.drop_last();
        assert forall|i: int, j: int| 0 <= i < j < rest.len() implies lex_lt(rest[i], rest[j]) by {
            assert(rest[i] == s[i]);
            assert(rest[j] == s[j]);
        }
        lemma_filter_sorted(rest, pred);
        let f = rest.filter(pred);
        if pred(s.last()) {
            lemma_filter_members(rest, pred);
            assert forall|k: int| 0 <= k < f.len() implies lex_lt(f[k], s.last()) by {
                assert(f.contains(f[k]));
                assert(rest.contains(f[k]));
                let j = choose|j: int| 0 <= j < rest.len() && rest[j] == f[k];
                assert(rest[j] == s[j]);
                assert(lex_lt(s[j], s[s.len() - 1]));
            }
            let g = f.push(s.last());
            assert(s.filter(pred) == g);
            assert forall|i: int, j: int| 0 <= i < j < g.len() implies lex_lt(g[i], g[j]) by {
                if j < g.len() - 1 {
                    assert(g[i] == f[i]);
                    assert(g[j] == f[j]);
                } else {
                    assert(g[j] == s.last());
                    assert(g[i] == f[i]);
                }
            }
        } else {
            assert(s.filter(pred) == f);
        }
    }
}

/// No sequence of characters is lexicographically below itself.
proof fn lemma_lex_lt_irreflexive(a: Seq<char>)
    ensures
        !lex_lt(a, a),
    decreases a.len(),
{
    if a.len() > 0 {
        lemma_lex_lt_irreflexive(a.skip(1));
    }
}

/// A strictly ascending listing holds no domain twice.
proof fn lemma_sorted_no_duplicates(s: Seq<Seq<char>>)
    requires
        sorted_ascending(s),
    ensures
        s.no_duplicates(),
{
    assert forall|i: int, j: int|
        0 <= i < s.len() && 0 <= j < s.len() && i != j implies s[i] != s[j] by {
        if s[i] == s[j] {
            lemma_lex_lt_irreflexive(s[i]);
        }
    }
}

} // verus!
