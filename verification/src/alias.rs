//! The case-insensitive alias table: any name (alias or canonical) maps to
//! a canonical feature name. Keys are stored case-folded; lookups fold the
//! probe the same way.

use vstd::prelude::*;

use crate::strings::{push_str, str_eq};
use vstd::string::StrSliceExecFns;

verus! {

/// The Unicode case-folded form of a string: the result depends on the
/// characters alone.
pub uninterp spec fn folded_case(s: Seq<char>) -> Seq<char>;

/// Relies on `unicase::UniCase::to_folded_case`: maps each character to its
/// Unicode case-folded form, deterministically.
#[verifier::external_body]
pub(crate) fn fold_case(s: &str) -> (r: String)
    ensures
        r@ == folded_case(s@),
{
    unicase::UniCase::new(s).to_folded_case()
}

/// One entry of the alias table.
pub struct AliasEntry {
    /// The case-folded name that lookups match against.
    pub key: String,
    /// The name as it was declared.
    pub original: String,
    /// The canonical feature name the entry maps to.
    pub canonical: String,
    /// False for the identity entry a canonical name gets for itself.
    pub declared: bool,
}

/// The folded key / canonical value pairs of the table.
pub open spec fn aview(entries: Seq<AliasEntry>) -> Seq<(Seq<char>, Seq<char>)> {
    Seq::new(entries.len(), |i: int| (entries[i].key@, entries[i].canonical@))
}

/// The canonical name bound to folded key `k`, scanning front to back.
pub open spec fn aget(table: Seq<(Seq<char>, Seq<char>)>, k: Seq<char>) -> Option<Seq<char>>
    decreases table.len(),
{
    if table.len() == 0 {
        None
    } else if table[0].0 == k {
        Some(table[0].1)
    } else {
        aget(table.drop_first(), k)
    }
}

pub proof fn lemma_aget_push(table: Seq<(Seq<char>, Seq<char>)>, e: (Seq<char>, Seq<char>), k: Seq<char>)
    ensures
        aget(table.push(e), k) == if aget(table, k) is Some {
            aget(table, k)
        } else if e.0 == k {
            Some(e.1)
        } else {
            None
        },
    decreases table.len(),
{
    if table.len() == 0 {
        assert(table.push(e)[0] == e);
        assert(table.push(e).drop_first() =~= Seq::<(Seq<char>, Seq<char>)>::empty());
    } else {
        assert(table.push(e)[0] == table[0]);
        assert(table.push(e).drop_first() =~= table.drop_first().push(e));
        lemma_aget_push(table.drop_first(), e, k);
    }
}

/// Looks a folded key up in the table; hands back the index of the entry.
pub fn alias_find(entries: &Vec<AliasEntry>, folded: &str) -> (r: Option<usize>)
    ensures
        match r {
            Some(i) => i < entries@.len() && entries@[i as int].key@ == folded@ && aget(
                aview(entries@),
                folded@,
            ) == Some(entries@[i as int].canonical@),
            None => aget(aview(entries@), folded@) is None,
        },
{
    let ghost table = aview(entries@);
    let n = entries.len();
    let mut i: usize = 0;
    proof {
        assert(table.skip(0) =~= table);
    }
    loop
        invariant
            i <= n,
            n == entries@.len(),
            table == aview(entries@),
            aget(table, folded@) == aget(table.skip(i as int), folded@),
            forall|j: int| 0 <= j < i ==> (#[trigger] table[j]).0 != folded@,
        decreases n - i,
    {
        if i == n {
            proof {
                assert(table.skip(i as int) =~= Seq::<(Seq<char>, Seq<char>)>::empty());
            }
            return None;
        }
        proof {
            assert(table.skip(i as int)[0] == table[i as int]);
            assert(table.skip(i as int).drop_first() =~= table.skip(i + 1));
        }
        if str_eq(entries[i].key.as_str(), folded) {
            return Some(i);
        }
        i += 1;
    }
}

/// The exact text reported when an alias, case-folded, is already mapped.
pub open spec fn spec_duplicate_alias_message(
    alias: Seq<char>,
    canonical: Seq<char>,
    existing: Seq<char>,
) -> Seq<char> {
    ("The alias '")@ + alias + ("' for canonical feature name '")@ + canonical + (
    "' is already mapped to '")@ + existing + ("'.")@
}

/// Adds one alias to the table, rejecting a name whose folded form is
/// already mapped, with the exact message callers grep for.
pub fn add_alias(entries: &mut Vec<AliasEntry>, alias: &str, canonical: &str, declared: bool) -> (r:
    Result<(), String>)
    ensures
        r is Ok <==> aget(aview(old(entries)@), folded_case(alias@)) is None,
        r is Ok ==> {
            &&& final(entries)@.len() == old(entries)@.len() + 1
            &&& final(entries)@ == old(entries)@.push(final(entries)@.last())
            &&& final(entries)@.last().key@ == folded_case(alias@)
            &&& final(entries)@.last().original@ == alias@
            &&& final(entries)@.last().canonical@ == canonical@
            &&& final(entries)@.last().declared == declared
        },
        r matches Err(m) ==> {
            &&& final(entries)@ == old(entries)@
            &&& aget(aview(old(entries)@), folded_case(alias@)) matches Some(existing) && m@
                == spec_duplicate_alias_message(alias@, canonical@, existing)
        },
{
    let folded = fold_case(alias);
    match alias_find(entries, folded.as_str()) {
        Some(i) => {
            let mut m = String::new();
            push_str(&mut m, "The alias '");
            push_str(&mut m, alias);
            push_str(&mut m, "' for canonical feature name '");
            push_str(&mut m, canonical);
            push_str(&mut m, "' is already mapped to '");
            push_str(&mut m, entries[i].canonical.as_str());
            push_str(&mut m, "'.");
            Err(m)
        },
        None => {
            let ghost oldview = aview(entries@);
            entries.push(
                AliasEntry {
                    key: folded,
                    original: alias.to_owned(),
                    canonical: canonical.to_owned(),
                    declared,
                },
            );
            proof {
                assert(entries@ =~= old(entries)@.push(entries@.last()));
            }
            Ok(())
        },
    }
}

} // verus!
