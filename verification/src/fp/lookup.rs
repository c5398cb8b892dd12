//! Known-fingerprint lookup against the embedded table.
//!
//! Each table maps a fingerprint to a client name; a lookup returns the
//! name of the first entry whose fingerprint equals the query.

use crate::util::text::chars_of;
use vstd::prelude::*;

verus! {

/// The name of the first entry of `db` whose fingerprint is `key`.
pub open spec fn db_find(db: Seq<(Seq<char>, Seq<char>)>, key: Seq<char>) -> Option<Seq<char>>
    decreases db.len(),
{
    if db.len() == 0 {
        None
    } else if db[0].0 == key {
        Some(db[0].1)
    } else {
        db_find(db.drop_first(), key)
    }
}

/// Known JA4 fingerprints.
pub open spec fn ja4_db() -> Seq<(Seq<char>, Seq<char>)> {
    seq![
        ("t13d1516h2_8daaf6152771_02713d6af862"@, "Chromium Browser"@),
        ("t13d1305h2_bda08f0cbb17_c83d862dc2aa"@, "grip"@),
        ("t13i1305h2_bda08f0cbb17_c83d862dc2aa"@, "grip"@),
    ]
}

/// Known JA3 fingerprints.
pub open spec fn ja3_db() -> Seq<(Seq<char>, Seq<char>)> {
    seq![("d879bc8777862a634eecc81a0d21e701"@, "grip"@), ("ed329d72cdf273628e26e8e6f17110a9"@, "grip"@)]
}

fn ja4_entry(i: usize) -> (r: (&'static str, &'static str))
    requires
        i < ja4_db().len(),
    ensures
        (r.0@, r.1@) == ja4_db()[i as int],
{
    if i == 0 {
        ("t13d1516h2_8daaf6152771_02713d6af862", "Chromium Browser")
    } else if i == 1 {
        ("t13d1305h2_bda08f0cbb17_c83d862dc2aa", "grip")
    } else {
        ("t13i1305h2_bda08f0cbb17_c83d862dc2aa", "grip")
    }
}

fn ja3_entry(i: usize) -> (r: (&'static str, &'static str))
    requires
        i < ja3_db().len(),
    ensures
        (r.0@, r.1@) == ja3_db()[i as int],
{
    if i == 0 {
        ("d879bc8777862a634eecc81a0d21e701", "grip")
    } else {
        ("ed329d72cdf273628e26e8e6f17110a9", "grip")
    }
}

/// Whether two strings hold the same characters.
pub fn same_text(a: &str, b: &str) -> (r: bool)
    ensures
        r == (a@ == b@),
{
    let x = chars_of(a);
    let y = chars_of(b);
    if x.len() != y.len() {
        return false;
    }
    let mut i: usize = 0;
    while i < x.len()
        invariant
            i <= x@.len(),
            x@ == a@,
            y@ == b@,
            x@.len() == y@.len(),
            x@.take(i as int) == y@.take(i as int),
        decreases x.len() - i,
    {
        if x[i] != y[i] {
            assert(x@ != y@) by {
                if x@ == y@ {
                    assert(x@[i as int] == y@[i as int]);
                }
            }
            return false;
        }
        assert(x@.take(i + 1) =~= x@.take(i as int).push(x@[i as int]));
        assert(y@.take(i + 1) =~= y@.take(i as int).push(y@[i as int]));
        i += 1;
    }
    assert(x@.take(x@.len() as int) =~= x@);
    assert(y@.take(y@.len() as int) =~= y@);
    true
}

proof fn lemma_db_find_skip(db: Seq<(Seq<char>, Seq<char>)>, key: Seq<char>, i: int)
    requires
        0 <= i < db.len(),
        db[i].0 != key,
    ensures
        db_find(db.skip(i), key) == db_find(db.skip(i + 1), key),
{
    assert(db.skip(i).drop_first() =~= db.skip(i + 1));
}

/// Look up a JA3 hash in the known table.
pub fn lookup_ja3(ja3: &str) -> (res: Option<&'static str>)
    ensures
        match res {
            Some(n) => db_find(ja3_db(), ja3@) == Some(n@),
            None => db_find(ja3_db(), ja3@) is None,
        },
{
    let mut i: usize = 0;
    assert(ja3_db().skip(0) =~= ja3_db());
    while i < 2
        invariant
            i <= 2,
            ja3_db().len() == 2,
            db_find(ja3_db(), ja3@) == db_find(ja3_db().skip(i as int), ja3@),
        decreases 2 - i,
    {
        let (key, name) = ja3_entry(i);
        if same_text(key, ja3) {
            return Some(name);
        }
        proof {
            lemma_db_find_skip(ja3_db(), ja3@, i as int);
        }
        i += 1;
    }
    None
}

/// Look up a JA4 fingerprint in the known table.
pub fn lookup_ja4(ja4: &str) -> (res: Option<&'static str>)
    ensures
        match res {
            Some(n) => db_find(ja4_db(), ja4@) == Some(n@),
            None => db_find(ja4_db(), ja4@) is None,
        },
{
    let mut i: usize = 0;
    assert(ja4_db().skip(0) =~= ja4_db());
    while i < 3
        invariant
            i <= 3,
            ja4_db().len() == 3,
            db_find(ja4_db(), ja4@) == db_find(ja4_db().skip(i as int), ja4@),
        decreases 3 - i,
    {
        let (key, name) = ja4_entry(i);
        if same_text(key, ja4) {
            return Some(name);
        }
        proof {
            lemma_db_find_skip(ja4_db(), ja4@, i as int);
        }
        i += 1;
    }
    None
}

/// The client name for a JA4 (preferred) or JA3 fingerprint.
pub open spec fn lookup_spec(ja4: Option<Seq<char>>, ja3: Option<Seq<char>>) -> Option<Seq<char>> {
    let by4 = match ja4 {
        Some(j) => db_find(ja4_db(), j),
        None => None,
    };
    match by4 {
        Some(n) => Some(n),
        None => match ja3 {
            Some(j) => db_find(ja3_db(), j),
            None => None,
        },
    }
}

/// Look up either fingerprint, preferring JA4.
pub fn lookup(ja4: Option<&str>, ja3: Option<&str>) -> (res: Option<&'static str>)
    ensures
        match res {
            Some(n) => lookup_spec(
                match ja4 {
                    Some(j) => Some(j@),
                    None => None,
                },
                match ja3 {
                    Some(j) => Some(j@),
                    None => None,
                },
            ) == Some(n@),
            None => lookup_spec(
                match ja4 {
                    Some(j) => Some(j@),
                    None => None,
                },
                match ja3 {
                    Some(j) => Some(j@),
                    None => None,
                },
            ) is None,
        },
{
    if let Some(j) = ja4 {
        if let Some(v) = lookup_ja4(j) {
            return Some(v);
        }
    }
    if let Some(j) = ja3 {
        if let Some(v) = lookup_ja3(j) {
            return Some(v);
        }
    }
    None
}

} // verus!
