//! The ledger of Jamendo API calls.

use super::table::{Kind, Table};
use super::{
    abort, began, begin_read, begin_write, begin_write_gave, commit, commit_refused, insert_count,
    insert_gave, lookup, read_count, read_error, read_gave, read_refused, row_refused, sees,
    staged_count, store, with_row, with_table, CacheError, Cell, MidhashCache, Tables, Writer,
};
use redb::ReadTransaction;
use vstd::prelude::*;

verus! {

/// Calls spent in `month`.
pub open spec fn spent(tables: Tables, month: Seq<char>) -> u64 {
    match lookup(tables, Table::JamendoQuota, month) {
        Some(Cell::Count(n)) => n,
        _ => 0,
    }
}

/// `tables` with `n` calls spent in `month`.
pub open spec fn with_spent(tables: Tables, month: Seq<char>, n: u64) -> Tables {
    store(tables, Table::JamendoQuota, month, Cell::Count(n))
}

/// redb gave `e` for reading what is spent in `month`, in a transaction that sees
/// `tables`.
spec fn ledger_refused(tables: Tables, month: Seq<char>, e: redb::Error) -> bool {
    exists|w: Writer<'_>, n: &str, m: &str|
        sees(w) == tables && n@ == Table::JamendoQuota.spec_name() && m@ == month
            && #[trigger] call_ensures(
            staged_count,
            (w, n, m),
            Err::<(Writer<'_>, Option<u64>), redb::Error>(e),
        )
}

/// redb gave `e` for rolling back a transaction that began with `tables`.
spec fn abort_refused(tables: Tables, e: redb::Error) -> bool {
    exists|w: Writer<'_>|
        began(w) == tables && #[trigger] call_ensures(abort, (w,), Err::<(), redb::Error>(e))
}

/// redb refused to spend one call of `month`'s `budget`: `e` is what it gave for
/// beginning, for reading what is spent, for writing one more where the budget has
/// room for it, for the commit of that, or for rolling back where it has none.
pub closed spec fn spend_refused(
    cache: MidhashCache,
    month: Seq<char>,
    budget: u64,
    e: CacheError,
) -> bool {
    let before = spent(cache@, month);
    let opened = with_table(cache@, Table::JamendoQuota.spec_name());
    let more = (before + 1) as u64;
    match e {
        CacheError::Begin(e) => begin_write_gave(cache, e),
        CacheError::Access(e) => ledger_refused(cache@, month, e) || (before < budget
            && row_refused(opened, Table::JamendoQuota, month, Cell::Count(more), e)),
        CacheError::Commit(e) => before < budget && commit_refused(
            with_spent(cache@, month, more),
            e,
        ),
        CacheError::Abort(e) => before >= budget && abort_refused(cache@, e),
        CacheError::Open(_) => false,
    }
}

/// Spending fails only where redb fails on that very spend: in beginning it, in
/// reading what is spent in that month, in writing one more there where the budget
/// has room, in the commit of just that, or in rolling back where it has none.
pub(super) proof fn law_spending_fails_only_where_redb_does(
    cache: MidhashCache,
    month: Seq<char>,
    budget: u64,
    e: redb::Error,
)
    ensures
        spend_refused(cache, month, budget, CacheError::Begin(e)) ==> exists|c: &mut MidhashCache|
            *c == cache && #[trigger] call_ensures(
                begin_write,
                (c,),
                Err::<Writer<'_>, redb::Error>(e),
            ),
        spend_refused(cache, month, budget, CacheError::Access(e)) ==> {
            ||| exists|w: Writer<'_>, n: &str, m: &str|
                sees(w) == cache@ && n@ == Table::JamendoQuota.spec_name() && m@ == month
                    && #[trigger] call_ensures(
                    staged_count,
                    (w, n, m),
                    Err::<(Writer<'_>, Option<u64>), redb::Error>(e),
                )
            ||| spent(cache@, month) < budget && exists|w: Writer<'_>, n: &str, m: &str|
                n@ == Table::JamendoQuota.spec_name() && m@ == month && #[trigger] call_ensures(
                    insert_count,
                    (w, n, m, (spent(cache@, month) + 1) as u64),
                    Err::<Writer<'_>, redb::Error>(e),
                )
        },
        spend_refused(cache, month, budget, CacheError::Commit(e)) ==> spent(cache@, month) < budget
            && exists|w: Writer<'_>|
            sees(w) == with_spent(cache@, month, (spent(cache@, month) + 1) as u64)
                && #[trigger] call_ensures(commit, (w,), Err::<(), redb::Error>(e)),
        spend_refused(cache, month, budget, CacheError::Abort(e)) ==> spent(cache@, month) >= budget
            && exists|w: Writer<'_>|
            began(w) == cache@ && #[trigger] call_ensures(abort, (w,), Err::<(), redb::Error>(e)),
        !spend_refused(cache, month, budget, CacheError::Open(e)),
{
    let more = (spent(cache@, month) + 1) as u64;
    let opened = with_table(cache@, Table::JamendoQuota.spec_name());
    if spend_refused(cache, month, budget, CacheError::Access(e)) && !ledger_refused(
        cache@,
        month,
        e,
    ) {
        let (w, n, m) = choose|w: Writer<'_>, n: &str, m: &str|
            sees(w) == opened && n@ == Table::JamendoQuota.spec_name() && m@ == month
                && #[trigger] insert_gave(w, n, m, Cell::Count(more), e);
        assert(call_ensures(insert_count, (w, n, m, more), Err::<Writer<'_>, redb::Error>(e)));
    }
}

/// What is spent after one more call, where the budget has room for it.
pub fn next_spend(spent: u64, budget: u64) -> (r: Option<u64>)
    ensures
        match r {
            Some(n) => spent < budget && n == spent + 1,
            None => spent >= budget,
        },
{
    if spent >= budget {
        None
    } else {
        Some(spent + 1)
    }
}

impl MidhashCache {
    /// Spends one call of `month`'s `budget`: the calls spent with this one, or
    /// `None`, and nothing written, where the budget is used up.
    pub fn jamendo_quota_spend(&mut self, month: &str, budget: u64) -> (r: Result<
        Option<u64>,
        CacheError,
    >)
        ensures
            match r {
                Ok(Some(n)) => spent(old(self)@, month@) < budget && n == spent(
                    old(self)@,
                    month@,
                ) + 1 && final(self)@ == with_spent(old(self)@, month@, n),
                Ok(None) => spent(old(self)@, month@) >= budget && final(self)@ == old(self)@,
                Err(CacheError::Begin(_)) => final(self)@ == old(self)@,
                Err(CacheError::Access(_)) => final(self)@ == old(self)@,
                Err(CacheError::Abort(_)) => spent(old(self)@, month@) >= budget && final(self)@
                    == old(self)@,
                Err(CacheError::Commit(_)) => spent(old(self)@, month@) < budget,
                Err(CacheError::Open(_)) => false,
            },
            r matches Err(e) ==> spend_refused(*old(self), month@, budget, e),
            final(self).file() == old(self).file(),
    {
        proof {
            use_type_invariant(&*self);
        }
        let w: Writer<'_> = match begin_write(self) {
            Ok(w) => w,
            Err(e) => {
                return Err(CacheError::Begin(e));
            },
        };
        let table: &'static str = Table::JamendoQuota.name();
        let (w, before): (Writer<'_>, u64) = match staged_count(w, table, month) {
            Ok((w, Some(n))) => (w, n),
            Ok((w, None)) => (w, 0),
            Err(e) => {
                return Err(CacheError::Access(e));
            },
        };
        match next_spend(before, budget) {
            None => {
                // Nothing was written: roll back rather than commit.
                match abort(w) {
                    Ok(_) => Ok(None),
                    Err(e) => Err(CacheError::Abort(e)),
                }
            },
            Some(n) => {
                let ghost begun = w;
                let w: Writer<'_> = match insert_count(w, table, month, n) {
                    Ok(w) => w,
                    Err(e) => {
                        assert(insert_gave(begun, table, month, Cell::Count(n), e));
                        return Err(CacheError::Access(e));
                    },
                };
                proof {
                    let t = old(self)@;
                    assert(with_row(with_table(t, table@), table@, month@, Cell::Count(n))
                        =~= with_row(t, table@, month@, Cell::Count(n)));
                }
                match commit(w) {
                    Ok(_) => Ok(Some(n)),
                    Err(e) => Err(CacheError::Commit(e)),
                }
            },
        }
    }

    /// Calls already spent in `month`. Read-only: for health and the config
    /// surface, never on the request path.
    pub fn jamendo_quota_used(&self, month: &str) -> (r: Result<u64, CacheError>)
        ensures
            r matches Ok(n) ==> n == spent(self@, month@),
            r matches Err(e) ==> read_error(e),
            r matches Err(e) ==> read_refused(*self, Table::JamendoQuota, month@, e),
    {
        let tx: ReadTransaction = match begin_read(&self.db) {
            Ok(tx) => tx,
            Err(e) => {
                return Err(CacheError::Begin(e));
            },
        };
        let name: &'static str = Table::JamendoQuota.name();
        match read_count(&tx, name, month) {
            Ok(Some(n)) => Ok(n),
            Ok(None) => Ok(0),
            Err(e) => {
                assert(read_gave(tx, name, month, Kind::Count, e));
                Err(CacheError::Access(e))
            },
        }
    }
}

} // verus!
