//! The SQL text the database stores send, and how they read back stored
//! names and identifiers.

use vstd::prelude::*;
use crate::kinds::{MemoryPool, MemoryType, LinkType, parse_pool, parse_type, parse_link};
use crate::ids::{parse_uuid, uuid_parse};
use crate::text::{owned, joined, unicode_lowercase, to_lowercase};

verus! {

/// A stored pool name read back: the pool it names, else implicit.
pub fn pool_or_implicit(s: &str) -> (r: MemoryPool)
    ensures
        r == match parse_pool(unicode_lowercase(s@), s@) {
            Ok(p) => p,
            Err(_) => MemoryPool::Implicit,
        },
{
    match MemoryPool::from_str(s) {
        Ok(p) => p,
        Err(_) => MemoryPool::Implicit,
    }
}

/// A stored type name read back: the type it names, else fact.
pub fn type_or_fact(s: &str) -> (r: MemoryType)
    ensures
        r == match parse_type(unicode_lowercase(s@), s@) {
            Ok(t) => t,
            Err(_) => MemoryType::Fact,
        },
{
    match MemoryType::from_str(s) {
        Ok(t) => t,
        Err(_) => MemoryType::Fact,
    }
}

/// A stored link type name read back: the link type it names, else related.
pub fn link_type_or_related(s: &str) -> (r: LinkType)
    ensures
        r == match parse_link(unicode_lowercase(s@), s@) {
            Ok(t) => t,
            Err(_) => LinkType::Related,
        },
{
    match LinkType::from_str(s) {
        Ok(t) => t,
        Err(_) => LinkType::Related,
    }
}

/// A stored identifier read back: the UUID it holds, else the nil UUID.
pub fn uuid_or_nil(s: &str) -> (r: u128)
    ensures
        r == match uuid_parse(s@) {
            Some(u) => u,
            None => 0,
        },
{
    match parse_uuid(s) {
        Ok(u) => u,
        Err(_) => 0,
    }
}

/// The decimal digits of a number, most significant first.
pub open spec fn decimal(n: nat) -> Seq<char>
    decreases n,
{
    if n < 10 {
        seq![((48 + n) as char)]
    } else {
        decimal(n / 10).push(((48 + n % 10) as char))
    }
}

/// The decimal digit `d` as text.
fn digit_text(d: usize) -> (r: &'static str)
    requires
        d < 10,
    ensures
        r@ == seq![((48 + d) as char)],
{
    proof {
        reveal_strlit("0");
        reveal_strlit("1");
        reveal_strlit("2");
        reveal_strlit("3");
        reveal_strlit("4");
        reveal_strlit("5");
        reveal_strlit("6");
        reveal_strlit("7");
        reveal_strlit("8");
        reveal_strlit("9");
    }
    match d {
        0 => "0",
        1 => "1",
        2 => "2",
        3 => "3",
        4 => "4",
        5 => "5",
        6 => "6",
        7 => "7",
        8 => "8",
        _ => "9",
    }
}

/// The decimal text of `n`, without leading zeros.
fn usize_text(n: usize) -> (r: String)
    ensures
        r@ == decimal(n as nat),
    decreases n,
{
    if n < 10 {
        owned(digit_text(n))
    } else {
        let mut t = usize_text(n / 10);
        t.append(digit_text(n % 10));
        t
    }
}

/// The SQLite listing statement; placeholders for the pool and type filters
/// that are given, then the limit.
pub fn sqlite_list_sql(has_pool: bool, has_type: bool) -> (r: String)
    ensures
        r@ == "SELECT * FROM memories WHERE 1=1"@ + (if has_pool {
            " AND pool = ?"@
        } else {
            Seq::empty()
        }) + (if has_type {
            " AND type = ?"@
        } else {
            Seq::empty()
        }) + " ORDER BY created_at DESC LIMIT ?"@,
{
    let mut q = owned("SELECT * FROM memories WHERE 1=1");
    if has_pool {
        q.append(" AND pool = ?");
    }
    if has_type {
        q.append(" AND type = ?");
    }
    q.append(" ORDER BY created_at DESC LIMIT ?");
    q
}

/// The SQLite search statement; placeholders for the pattern, the pool and
/// type filters that are given, the minimum confidence and the limit.
pub fn sqlite_search_sql(has_pool: bool, has_type: bool) -> (r: String)
    ensures
        r@ == "SELECT * FROM memories WHERE content LIKE ?"@ + (if has_pool {
            " AND pool = ?"@
        } else {
            Seq::empty()
        }) + (if has_type {
            " AND type = ?"@
        } else {
            Seq::empty()
        }) + " AND confidence >= ?"@ + " ORDER BY importance DESC, created_at DESC LIMIT ?"@,
{
    let mut q = owned("SELECT * FROM memories WHERE content LIKE ?");
    if has_pool {
        q.append(" AND pool = ?");
    }
    if has_type {
        q.append(" AND type = ?");
    }
    q.append(" AND confidence >= ?");
    q.append(" ORDER BY importance DESC, created_at DESC LIMIT ?");
    q
}

/// The `LIKE` pattern of a case-insensitive search: the lowercased query
/// with `%` on both sides.
pub fn search_pattern(q: &str) -> (r: String)
    ensures
        r@ == "%"@ + unicode_lowercase(q@) + "%"@,
{
    let lower = to_lowercase(q);
    like_pattern(lower.as_str())
}

/// A `LIKE` pattern that matches `s` anywhere: `%s%`.
pub fn like_pattern(s: &str) -> (r: String)
    ensures
        r@ == "%"@ + s@ + "%"@,
{
    let mut q = owned("%");
    q.append(s);
    q.append("%");
    q
}

/// The PostgreSQL listing statement: the pool filter is `$1` and the type
/// filter `$2`, joined by `AND` under one `WHERE`, then the limit written
/// out.
pub fn postgres_list_sql(has_pool: bool, has_type: bool, limit: usize) -> (r: String)
    ensures
        r@ == "SELECT * FROM memories"@ + (if has_pool && has_type {
            " WHERE pool = $1 AND type = $2"@
        } else if has_pool {
            " WHERE pool = $1"@
        } else if has_type {
            " WHERE type = $2"@
        } else {
            Seq::empty()
        }) + " ORDER BY created_at DESC LIMIT "@ + decimal(limit as nat),
{
    let mut q = owned("SELECT * FROM memories");
    if has_pool && has_type {
        q.append(" WHERE pool = $1 AND type = $2");
    } else if has_pool {
        q.append(" WHERE pool = $1");
    } else if has_type {
        q.append(" WHERE type = $2");
    }
    q.append(" ORDER BY created_at DESC LIMIT ");
    let n = usize_text(limit);
    q.append(n.as_str());
    q
}

/// The PostgreSQL search statement: `$1` is the pattern, the pool and type
/// filters that are given take the next numbers in that order, the minimum
/// confidence the one after; results by confidence plus importance, the
/// limit written out.
pub fn postgres_search_sql(has_pool: bool, has_type: bool, limit: usize) -> (r: String)
    ensures
        r@ == "SELECT * FROM memories WHERE LOWER(content) LIKE $1"@ + (if has_pool {
            " AND pool = $2"@
        } else {
            Seq::empty()
        }) + (if has_type {
            if has_pool {
                " AND type = $3"@
            } else {
                " AND type = $2"@
            }
        } else {
            Seq::empty()
        }) + " AND confidence >= $"@ + decimal(
            (2 + (if has_pool {
                1int
            } else {
                0
            }) + (if has_type {
                1int
            } else {
                0
            })) as nat,
        ) + " ORDER BY confidence + importance DESC LIMIT "@ + decimal(limit as nat),
{
    let mut q = owned("SELECT * FROM memories WHERE LOWER(content) LIKE $1");
    let mut param: usize = 2;
    if has_pool {
        q.append(" AND pool = $");
        let n = usize_text(param);
        q.append(n.as_str());
        param = param + 1;
    }
    if has_type {
        q.append(" AND type = $");
        let n = usize_text(param);
        q.append(n.as_str());
        param = param + 1;
    }
    q.append(" AND confidence >= $");
    let n = usize_text(param);
    q.append(n.as_str());
    q.append(" ORDER BY confidence + importance DESC LIMIT ");
    let l = usize_text(limit);
    q.append(l.as_str());
    proof {
        reveal_strlit(" AND pool = $2");
        reveal_strlit(" AND pool = $");
        reveal_strlit(" AND type = $3");
        reveal_strlit(" AND type = $2");
        reveal_strlit(" AND type = $");
        assert(decimal(2) == seq!['2']);
        assert(decimal(3) == seq!['3']);
        assert(" AND pool = $"@ + decimal(2) =~= " AND pool = $2"@);
        assert(" AND type = $"@ + decimal(3) =~= " AND type = $3"@);
        assert(" AND type = $"@ + decimal(2) =~= " AND type = $2"@);
    }
    q
}

} // verus!
