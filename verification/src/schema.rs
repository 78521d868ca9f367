//! Schema versioning: the ordered list of migrations and which of them a
//! database still needs.
//!
//! Each migration has a version and a name; applied versions are recorded in a
//! `schema_version` table, and a migration is pending when its version exceeds
//! the highest recorded one.
use vstd::prelude::*;

verus! {

/// Current schema version — bump when adding new migrations.
pub const SCHEMA_VERSION: i64 = 3;

/// A single migration: version number and descriptive name (its SQL is kept
/// under `migrations/<name>.sql`).
#[derive(Debug, Clone, Copy)]
pub struct Migration {
    pub version: i64,
    pub name: &'static str,
}

/// All migrations, as (version, name), in ascending version order.
pub open spec fn migration_list() -> Seq<(i64, Seq<char>)> {
    seq![(1i64, "v1__initial"@), (2i64, "v2__chapters"@), (3i64, "v3__search_triggers"@)]
}

/// The migrations still to apply to a database at `current` version, in order.
pub open spec fn pending_after(current: i64) -> Seq<(i64, Seq<char>)> {
    migration_list().filter(|m: (i64, Seq<char>)| m.0 > current)
}

/// The version a database at `current` is at once its pending migrations ran.
pub open spec fn version_after(current: i64) -> i64 {
    if current >= SCHEMA_VERSION { current } else { SCHEMA_VERSION }
}

/// The views of a list of migrations.
pub open spec fn migrations_view(v: Seq<Migration>) -> Seq<(i64, Seq<char>)> {
    Seq::new(v.len(), |i: int| (v[i].version, v[i].name@))
}

/// Returns all defined migrations in ascending version order.
pub fn all_migrations() -> (v: Vec<Migration>)
    ensures
        migrations_view(v@) == migration_list(),
{
    let v = vec![
        Migration { version: 1, name: "v1__initial" },
        Migration { version: 2, name: "v2__chapters" },
        Migration { version: 3, name: "v3__search_triggers" },
    ];
    assert(migrations_view(v@) =~= migration_list());
    v
}

/// Returns the latest schema version this library knows about.
pub fn latest_version() -> (v: i64)
    ensures
        v == SCHEMA_VERSION,
        v == migration_list().last().0,
{
    SCHEMA_VERSION
}

/// Returns metadata about all available migrations: (version, name) in order.
pub fn list_migrations() -> (v: Vec<(i64, &'static str)>)
    ensures
        Seq::new(v@.len(), |i: int| (v@[i].0, v@[i].1@)) == migration_list(),
{
    let all = all_migrations();
    let mut out: Vec<(i64, &'static str)> = Vec::new();
    let mut i: usize = 0;
    while i < all.len()
        invariant
            i <= all.len(),
            migrations_view(all@) == migration_list(),
            out@.len() == i,
            Seq::new(out@.len(), |k: int| (out@[k].0, out@[k].1@)) == migration_list().take(i as int),
        decreases all.len() - i,
    {
        assert(migrations_view(all@)[i as int] == (all@[i as int].version, all@[i as int].name@));
        let ghost prev = out@;
        out.push((all[i].version, all[i].name));
        assert forall|k: int| 0 <= k < out@.len() implies (out@[k].0, out@[k].1@) == migration_list().take(i + 1)[k] by {
            if k < i {
                assert(out@[k] == prev[k]);
                assert(Seq::new(prev.len(), |k: int| (prev[k].0, prev[k].1@))[k] == migration_list().take(i as int)[k]);
            }
        }
        assert(Seq::new(out@.len(), |k: int| (out@[k].0, out@[k].1@)) =~= migration_list().take(i + 1));
        i = i + 1;
    }
    assert(migration_list().take(3) =~= migration_list());
    out
}

/// The migrations a database at `current_version` still needs, in ascending
/// version order: those whose version exceeds it.
pub fn pending_migrations(current_version: i64) -> (v: Vec<Migration>)
    ensures
        migrations_view(v@) == pending_after(current_version),
{
    let all = all_migrations();
    let mut out: Vec<Migration> = Vec::new();
    let ghost keep = |m: (i64, Seq<char>)| m.0 > current_version;
    let mut i: usize = 0;
    while i < all.len()
        invariant
            i <= all.len(),
            keep == (|m: (i64, Seq<char>)| m.0 > current_version),
            migrations_view(all@) == migration_list(),
            migrations_view(out@) == migration_list().take(i as int).filter(keep),
        decreases all.len() - i,
    {
        proof {
            reveal(Seq::filter);
            assert(migration_list().take(i + 1).drop_last() =~= migration_list().take(i as int));
            assert(migration_list().take(i + 1).last() == (all@[i as int].version, all@[i as int].name@));
        }
        if all[i].version > current_version {
            out.push(all[i]);
            assert(migrations_view(out@) =~= migrations_view(out@.drop_last()).push((all@[i as int].version, all@[i as int].name@)));
        }
        i = i + 1;
    }
    assert(migration_list().take(3) =~= migration_list());
    out
}

/// The version a database is at after running its pending migrations: the higher
/// of its current version and the latest one.
pub fn schema_version_after(current_version: i64) -> (v: i64)
    ensures
        v == version_after(current_version),
{
    if current_version >= SCHEMA_VERSION { current_version } else { SCHEMA_VERSION }
}

/// Running the migrations is idempotent: once the pending ones have run, none is
/// pending, and running again leaves the version where it is.
pub proof fn law_migrations_idempotent(current: i64)
    ensures
        pending_after(version_after(current)) == Seq::<(i64, Seq<char>)>::empty(),
        version_after(version_after(current)) == version_after(current),
{
    reveal_with_fuel(Seq::filter, 4);
    let v = version_after(current);
    assert(migration_list().drop_last().drop_last().drop_last() =~= Seq::<(i64, Seq<char>)>::empty());
    assert(pending_after(v) =~= Seq::<(i64, Seq<char>)>::empty());
}

} // verus!
